use vstd::prelude::*;
use crate::error::SizeError;
use crate::tree::{bytes_below, outcome_below, Tree};
use crate::walk::{file_bytes, first_failure, Entry};

verus! {

/// The sum of `sizes`.
pub open spec fn sum(sizes: Seq<u64>) -> nat
    decreases sizes.len(),
{
    if sizes.len() == 0 {
        0
    } else {
        sizes.first() as nat + sum(sizes.drop_first())
    }
}

/// Whether `entries` are files of the lengths `sizes`, in that order.
pub open spec fn files_of(entries: Seq<Entry<Tree>>, sizes: Seq<u64>) -> bool {
    &&& entries.len() == sizes.len()
    &&& forall|i: int| 0 <= i < sizes.len() ==> #[trigger] entries[i] == Entry::<Tree>::File(sizes[i])
}

/// Whether a read fails somewhere in `tree` when `depth` levels of directories are read.
pub open spec fn blocked(tree: Tree, depth: nat) -> bool
    decreases tree,
{
    match tree {
        Tree::Failed(_) => true,
        Tree::Locked(_) => depth > 0,
        Tree::Directory(entries) => depth > 0 && (first_failure(entries@) is Some || blocked_below(
            entries@,
            (depth - 1) as nat,
        )),
        _ => false,
    }
}

/// Whether a read fails in one of the directories among `entries`.
pub open spec fn blocked_below(entries: Seq<Entry<Tree>>, depth: nat) -> bool
    decreases entries,
{
    if entries.len() == 0 {
        false
    } else {
        let rest = blocked_below(entries.drop_first(), depth);
        match entries.first() {
            Entry::Directory(tree) => blocked(tree, depth) || rest,
            _ => rest,
        }
    }
}

/// Whether a path that is visited in `tree` within `depth` levels does not exist.
pub open spec fn vanished(tree: Tree, depth: nat) -> bool
    decreases tree,
{
    match tree {
        Tree::Missing => true,
        Tree::Directory(entries) => depth > 0 && vanished_below(entries@, (depth - 1) as nat),
        _ => false,
    }
}

/// Whether a path that is visited in one of the directories among `entries` does not exist.
pub open spec fn vanished_below(entries: Seq<Entry<Tree>>, depth: nat) -> bool
    decreases entries,
{
    if entries.len() == 0 {
        false
    } else {
        let rest = vanished_below(entries.drop_first(), depth);
        match entries.first() {
            Entry::Directory(tree) => vanished(tree, depth) || rest,
            _ => rest,
        }
    }
}

/// The bytes of the files that lie exactly `level` directories deep in `tree`:
/// the root, if it is a file, lies at level 0, the files of a root directory at
/// level 1, those of its directories at level 2.
pub open spec fn bytes_at_level(tree: Tree, level: nat) -> nat
    decreases tree,
{
    match tree {
        Tree::File(len) => if level == 0 {
            len as nat
        } else {
            0
        },
        Tree::Directory(entries) => if level == 0 {
            0
        } else {
            (if level == 1 {
                file_bytes(entries@)
            } else {
                0
            }) + bytes_at_level_below(entries@, (level - 1) as nat)
        },
        _ => 0,
    }
}

/// The bytes of the files that lie `level` directories deep in the directories
/// among `entries`.
pub open spec fn bytes_at_level_below(entries: Seq<Entry<Tree>>, level: nat) -> nat
    decreases entries,
{
    if entries.len() == 0 {
        0
    } else {
        let rest = bytes_at_level_below(entries.drop_first(), level);
        match entries.first() {
            Entry::Directory(tree) => bytes_at_level(tree, level) + rest,
            _ => rest,
        }
    }
}

/// The bytes of the files that lie at the levels 0 to `depth` of `tree`.
pub open spec fn bytes_through_level(tree: Tree, depth: nat) -> nat
    decreases depth,
{
    if depth == 0 {
        bytes_at_level(tree, 0)
    } else {
        bytes_through_level(tree, (depth - 1) as nat) + bytes_at_level(tree, depth)
    }
}

/// The bytes that lie at the levels 0 to `depth` of the directories among `entries`.
spec fn through_below(entries: Seq<Entry<Tree>>, depth: nat) -> nat
    decreases depth,
{
    if depth == 0 {
        bytes_at_level_below(entries, 0)
    } else {
        through_below(entries, (depth - 1) as nat) + bytes_at_level_below(entries, depth)
    }
}

/// A listing of files only: its bytes are their sum, no length fails, and there
/// is no directory to go down into.
proof fn lemma_files_only(entries: Seq<Entry<Tree>>, sizes: Seq<u64>, depth: nat)
    requires
        files_of(entries, sizes),
    ensures
        file_bytes(entries) == sum(sizes),
        first_failure(entries) is None,
        outcome_below(entries, depth) == Ok::<nat, SizeError>(0),
    decreases entries.len(),
{
    if entries.len() > 0 {
        lemma_files_only(entries.drop_first(), sizes.drop_first(), depth);
    }
}

/// When a sum comes out of a tree, and what it is then.
proof fn lemma_outcome(tree: Tree, depth: nat)
    ensures
        tree.outcome(depth) is Ok <==> !blocked(tree, depth) && !vanished(tree, depth),
        tree.outcome(depth) is Ok ==> tree.outcome(depth) == Ok::<nat, SizeError>(
            tree.bytes_within(depth),
        ),
        blocked(tree, depth) && !vanished(tree, depth) ==> tree.outcome(depth) matches Err(
            SizeError::Io(_),
        ),
    decreases tree,
{
    if let Tree::Directory(entries) = tree {
        if depth > 0 {
            lemma_outcome_below(entries@, (depth - 1) as nat);
        }
    }
}

/// When a sum comes out of the directories of a listing, and what it is then.
proof fn lemma_outcome_below(entries: Seq<Entry<Tree>>, depth: nat)
    ensures
        outcome_below(entries, depth) is Ok <==> !blocked_below(entries, depth) && !vanished_below(
            entries,
            depth,
        ),
        outcome_below(entries, depth) is Ok ==> outcome_below(entries, depth) == Ok::<
            nat,
            SizeError,
        >(bytes_below(entries, depth)),
        blocked_below(entries, depth) && !vanished_below(entries, depth) ==> outcome_below(
            entries,
            depth,
        ) matches Err(SizeError::Io(_)),
    decreases entries,
{
    if entries.len() > 0 {
        lemma_outcome_below(entries.drop_first(), depth);
        if let Entry::Directory(tree) = entries.first() {
            lemma_outcome(tree, depth);
        }
    }
}

/// The bytes through a level of the directories of a listing, directory by directory.
proof fn lemma_through_below_split(entries: Seq<Entry<Tree>>, depth: nat)
    ensures
        entries.len() == 0 ==> through_below(entries, depth) == 0,
        entries.len() > 0 ==> through_below(entries, depth) == through_below(
            entries.drop_first(),
            depth,
        ) + match entries.first() {
            Entry::Directory(tree) => bytes_through_level(tree, depth),
            _ => 0,
        },
    decreases depth,
{
    if depth > 0 {
        lemma_through_below_split(entries, (depth - 1) as nat);
    }
}

/// The bytes through a level of a directory: its own files and those of its
/// directories through the level before.
proof fn lemma_directory_levels(entries: Vec<Entry<Tree>>, depth: nat)
    requires
        depth > 0,
    ensures
        bytes_through_level(Tree::Directory(entries), depth) == file_bytes(entries@)
            + through_below(entries@, (depth - 1) as nat),
    decreases depth,
{
    if depth > 1 {
        lemma_directory_levels(entries, (depth - 1) as nat);
    } else {
        assert(bytes_through_level(Tree::Directory(entries), 0) == 0);
    }
}

/// The bytes within a depth are the bytes of the levels through that depth.
proof fn lemma_levels(tree: Tree, depth: nat)
    ensures
        tree.bytes_within(depth) == bytes_through_level(tree, depth),
    decreases tree, depth,
{
    match tree {
        Tree::Directory(entries) => {
            if depth > 0 {
                lemma_directory_levels(entries, depth);
                lemma_levels_below(entries@, (depth - 1) as nat);
            }
        },
        _ => {
            if depth > 0 {
                lemma_levels(tree, (depth - 1) as nat);
            }
        },
    }
}

/// The same for the directories of a listing.
proof fn lemma_levels_below(entries: Seq<Entry<Tree>>, depth: nat)
    ensures
        bytes_below(entries, depth) == through_below(entries, depth),
    decreases entries,
{
    lemma_through_below_split(entries, depth);
    if entries.len() > 0 {
        lemma_levels_below(entries.drop_first(), depth);
        if let Entry::Directory(tree) = entries.first() {
            lemma_levels(tree, depth);
        }
    }
}

/// A directory that holds only files, read at least one level deep, comes to the
/// sum of their lengths.
pub proof fn law_directory_of_files(tree: Tree, sizes: Seq<u64>, depth: nat)
    requires
        tree matches Tree::Directory(entries) && files_of(entries@, sizes),
        depth >= 1,
    ensures
        tree.outcome(depth) == Ok::<nat, SizeError>(sum(sizes)),
{
    if let Tree::Directory(entries) = tree {
        lemma_files_only(entries@, sizes, (depth - 1) as nat);
    }
}

/// Where nothing fails and nothing is missing, a tree comes to the bytes of the
/// files at its levels 0 to `depth`: no file that lies deeper is counted.
pub proof fn law_counts_levels_through_depth(tree: Tree, depth: nat)
    requires
        !blocked(tree, depth),
        !vanished(tree, depth),
    ensures
        tree.outcome(depth) == Ok::<nat, SizeError>(bytes_through_level(tree, depth)),
{
    lemma_outcome(tree, depth);
    lemma_levels(tree, depth);
}

/// A directory of which no level may be read comes to 0, whatever it holds.
pub proof fn law_depth_zero_is_zero(tree: Tree)
    requires
        tree is Directory || tree is Locked,
    ensures
        tree.outcome(0) == Ok::<nat, SizeError>(0),
{
}

/// A file comes to its length, whatever the depth.
pub proof fn law_file_is_its_length(len: u64, depth: nat)
    ensures
        Tree::File(len).outcome(depth) == Ok::<nat, SizeError>(len as nat),
{
}

/// A path that does not exist fails with `NotFound`, whatever the depth.
pub proof fn law_missing_is_not_found(depth: nat)
    ensures
        Tree::Missing.outcome(depth) == Err::<nat, SizeError>(SizeError::NotFound),
{
}

/// A sum comes out exactly where no read fails within reach and every visited
/// path exists, and it is then the bytes of all files within reach.
pub proof fn law_sum_comes_out_iff_nothing_fails(tree: Tree, depth: nat)
    ensures
        tree.outcome(depth) is Ok <==> !blocked(tree, depth) && !vanished(tree, depth),
        tree.outcome(depth) is Ok ==> tree.outcome(depth) == Ok::<nat, SizeError>(
            tree.bytes_within(depth),
        ),
{
    lemma_outcome(tree, depth);
}

/// Where a read fails within reach, no sum comes out, not even of what could be
/// read; and the error is `Io` unless a visited path does not exist.
pub proof fn law_failed_read_fails_all(tree: Tree, depth: nat)
    requires
        blocked(tree, depth),
    ensures
        tree.outcome(depth) is Err,
        !vanished(tree, depth) ==> tree.outcome(depth) matches Err(SizeError::Io(_)),
{
    lemma_outcome(tree, depth);
}

} // verus!
