use vstd::prelude::*;
use crate::error::SizeError;
use crate::walk::{
    file_bytes, first_failure, one_level_down, subdirectories, Entry, Found, Step, Walk,
};

verus! {

/// What stands at a path, with all that stands below it: a filesystem as one value,
/// on which the walk can be run and by which its result is stated.
#[derive(Debug, PartialEq, Eq)]
pub enum Tree {
    /// Nothing exists at the path.
    Missing,
    /// A regular file of this length in bytes.
    File(u64),
    /// A regular file whose length cannot be read.
    Failed(String),
    /// A directory and its entries, in the order in which they are read. The tree
    /// of an entry that is a directory is what its visit will find, which need not
    /// be a directory any more.
    Directory(Vec<Entry<Tree>>),
    /// A directory whose entries cannot be read.
    Locked(String),
}

/// Adds `count` to a sum that has come out, and leaves an error as it is.
pub open spec fn plus(count: nat, rest: Result<nat, SizeError>) -> Result<nat, SizeError> {
    match rest {
        Ok(n) => Ok(count + n),
        Err(e) => Err(e),
    }
}

/// What comes of adding up the directories among `entries`, one after the other,
/// each read `depth` levels deep: the sum, or the first error met.
pub open spec fn outcome_below(entries: Seq<Entry<Tree>>, depth: nat) -> Result<nat, SizeError>
    decreases entries,
{
    if entries.len() == 0 {
        Ok(0)
    } else {
        let rest = entries.drop_first();
        match entries.first() {
            Entry::Directory(tree) => match tree.outcome(depth) {
                Ok(n) => plus(n, outcome_below(rest, depth)),
                Err(e) => Err(e),
            },
            _ => outcome_below(rest, depth),
        }
    }
}

/// The bytes that the directories among `entries` hold within `depth` levels.
pub open spec fn bytes_below(entries: Seq<Entry<Tree>>, depth: nat) -> nat
    decreases entries,
{
    if entries.len() == 0 {
        0
    } else {
        let rest = bytes_below(entries.drop_first(), depth);
        match entries.first() {
            Entry::Directory(tree) => tree.bytes_within(depth) + rest,
            _ => rest,
        }
    }
}

/// Whether `seen` is what a visit reports of the entry `held`: the same, with the
/// tree of a directory as its path.
pub open spec fn reports(held: Entry<Tree>, seen: Entry<&Tree>) -> bool {
    match held {
        Entry::Unreadable(reason) => seen == Entry::<&Tree>::Unreadable(reason),
        Entry::File(len) => seen == Entry::<&Tree>::File(len),
        Entry::Failed(reason) => seen == Entry::<&Tree>::Failed(reason),
        Entry::Directory(tree) => seen matches Entry::Directory(path) && *path == tree,
    }
}

/// Whether `seen` reports the entries `held`, one for one.
pub open spec fn reports_all(held: Seq<Entry<Tree>>, seen: Seq<Entry<&Tree>>) -> bool {
    &&& seen.len() == held.len()
    &&& forall|i: int| 0 <= i < held.len() ==> reports(held[i], #[trigger] seen[i])
}

impl Tree {
    /// What comes of adding up this tree when at most `depth` levels of directories
    /// are read.
    ///
    /// A path that does not exist is an error, and so is a read that fails. A file
    /// comes to its length. A directory of which no level may be read comes to 0,
    /// whatever it holds and whether or not it can be read. Any other directory
    /// comes to the lengths of its files and what its directories come to, each a
    /// level lower. Of several errors the first one counts: a failed length in the
    /// directory's own listing before anything below it, then directory by directory
    /// in the order of the listing. An entry that could not be enumerated counts
    /// for nothing.
    pub open spec fn outcome(self, depth: nat) -> Result<nat, SizeError>
        decreases self,
    {
        match self {
            Tree::Missing => Err(SizeError::NotFound),
            Tree::File(len) => Ok(len as nat),
            Tree::Failed(reason) => Err(SizeError::Io(reason)),
            Tree::Locked(reason) => if depth == 0 {
                Ok(0)
            } else {
                Err(SizeError::Io(reason))
            },
            Tree::Directory(entries) => if depth == 0 {
                Ok(0)
            } else {
                match first_failure(entries@) {
                    Some(reason) => Err(SizeError::Io(reason)),
                    None => plus(file_bytes(entries@), outcome_below(entries@, (depth - 1) as nat)),
                }
            },
        }
    }

    /// The bytes of all files that are reached when at most `depth` levels of
    /// directories are read, whatever cannot be read counting for nothing.
    pub open spec fn bytes_within(self, depth: nat) -> nat
        decreases self,
    {
        match self {
            Tree::File(len) => len as nat,
            Tree::Directory(entries) => if depth == 0 {
                0
            } else {
                file_bytes(entries@) + bytes_below(entries@, (depth - 1) as nat)
            },
            _ => 0,
        }
    }

    /// Whether `found` is what a visit finds at the root of this tree.
    pub open spec fn shows(self, list: bool, found: Found<&Tree>) -> bool {
        match self {
            Tree::Missing => found is Missing,
            Tree::File(len) => found == Found::<&Tree>::File(len),
            Tree::Failed(reason) => found == Found::<&Tree>::Failed(reason),
            Tree::Locked(reason) => if list {
                found == Found::<&Tree>::Failed(reason)
            } else {
                found matches Found::Directory(seen) && seen@.len() == 0
            },
            Tree::Directory(entries) => found matches Found::Directory(seen) && if list {
                reports_all(entries@, seen@)
            } else {
                seen@.len() == 0
            },
        }
    }

    /// Visits the root of this tree: the tree takes the place of a filesystem, and
    /// each tree below it is its own path.
    pub fn visit(&self, list: bool) -> (found: Found<&Tree>)
        ensures
            self.shows(list, found),
    {
        match self {
            Tree::Missing => Found::Missing,
            Tree::File(len) => Found::File(*len),
            Tree::Failed(reason) => Found::Failed(reason.clone()),
            Tree::Locked(reason) => if list {
                Found::Failed(reason.clone())
            } else {
                Found::Directory(Vec::new())
            },
            Tree::Directory(entries) => {
                let mut seen: Vec<Entry<&Tree>> = Vec::new();
                if list {
                    let mut i: usize = 0;
                    while i < entries.len()
                        invariant
                            i <= entries.len(),
                            seen@.len() == i,
                            forall|j: int| 0 <= j < i ==> reports(entries@[j], #[trigger] seen@[j]),
                        decreases entries.len() - i,
                    {
                        let entry = match &entries[i] {
                            Entry::Unreadable(reason) => Entry::Unreadable(reason.clone()),
                            Entry::File(len) => Entry::File(*len),
                            Entry::Failed(reason) => Entry::Failed(reason.clone()),
                            Entry::Directory(tree) => Entry::Directory(tree),
                        };
                        seen.push(entry);
                        i += 1;
                    }
                }
                Found::Directory(seen)
            },
        }
    }

    /// Adds up the files of this tree, reading at most `depth` levels of
    /// directories: runs a walk from the root and answers each of its visits from
    /// the tree.
    pub fn total_size(&self, depth: usize) -> (result: Result<u64, SizeError>)
        requires
            self.bytes_within(depth as nat) <= u64::MAX,
        ensures
            match result {
                Ok(total) => self.outcome(depth as nat) == Ok::<nat, SizeError>(total as nat),
                Err(error) => self.outcome(depth as nat) == Err::<nat, SizeError>(error),
            },
    {
        let mut walk = Walk::start(self, depth);
        proof {
            lemma_pending_unfold(walk.pending());
        }
        loop
            invariant
                plus(walk.total(), outcome_pending(walk.pending())) == self.outcome(depth as nat),
                walk.total() + bytes_pending(walk.pending()) <= u64::MAX,
            decreases visits_pending(walk.pending()),
        {
            let ghost before = walk;
            match walk.step() {
                Step::Done(total) => {
                    return Ok(total);
                },
                Step::Visit { path, list, rest } => {
                    let found = path.visit(list);
                    let ghost tree = *path;
                    let ghost shown = found;
                    proof {
                        lemma_pending_unfold(before.pending());
                        if let Tree::Directory(entries) = tree {
                            if let Found::Directory(seen) = shown {
                                if list {
                                    lemma_descend(
                                        entries@,
                                        seen@,
                                        before.pending()[0].1,
                                        rest.walk().pending(),
                                    );
                                }
                            }
                        }
                    }
                    match rest.resume(found) {
                        Ok(next) => {
                            walk = next;
                        },
                        Err(error) => {
                            return Err(error);
                        },
                    }
                },
            }
        }
    }

    /// The number of paths that are visited when at most `depth` levels of
    /// directories are read and nothing fails.
    spec fn visits(self, depth: nat) -> nat
        decreases self,
    {
        match self {
            Tree::Directory(entries) => if depth == 0 {
                1
            } else {
                1 + visits_below(entries@, (depth - 1) as nat)
            },
            _ => 1,
        }
    }
}

/// The number of paths that are visited in the directories among `entries`.
spec fn visits_below(entries: Seq<Entry<Tree>>, depth: nat) -> nat
    decreases entries,
{
    if entries.len() == 0 {
        0
    } else {
        let rest = visits_below(entries.drop_first(), depth);
        match entries.first() {
            Entry::Directory(tree) => tree.visits(depth) + rest,
            _ => rest,
        }
    }
}

/// What comes of making the visits `pending`, the first one first.
spec fn outcome_pending(pending: Seq<(&Tree, usize)>) -> Result<nat, SizeError>
    decreases pending.len(),
{
    if pending.len() == 0 {
        Ok(0)
    } else {
        match pending[0].0.outcome(pending[0].1 as nat) {
            Ok(n) => plus(n, outcome_pending(pending.drop_first())),
            Err(e) => Err(e),
        }
    }
}

/// The bytes that the visits `pending` can reach.
spec fn bytes_pending(pending: Seq<(&Tree, usize)>) -> nat
    decreases pending.len(),
{
    if pending.len() == 0 {
        0
    } else {
        pending[0].0.bytes_within(pending[0].1 as nat) + bytes_pending(pending.drop_first())
    }
}

/// The number of paths that the visits `pending` lead to.
spec fn visits_pending(pending: Seq<(&Tree, usize)>) -> nat
    decreases pending.len(),
{
    if pending.len() == 0 {
        0
    } else {
        pending[0].0.visits(pending[0].1 as nat) + visits_pending(pending.drop_first())
    }
}

/// The three sums over pending visits, with the first visit set apart.
proof fn lemma_pending_unfold(pending: Seq<(&Tree, usize)>)
    requires
        pending.len() > 0,
    ensures
        outcome_pending(pending) == match pending[0].0.outcome(pending[0].1 as nat) {
            Ok(n) => plus(n, outcome_pending(pending.drop_first())),
            Err(e) => Err(e),
        },
        bytes_pending(pending) == pending[0].0.bytes_within(pending[0].1 as nat) + bytes_pending(
            pending.drop_first(),
        ),
        visits_pending(pending) == pending[0].0.visits(pending[0].1 as nat) + visits_pending(
            pending.drop_first(),
        ),
        visits_pending(pending) > visits_pending(pending.drop_first()),
{
}

/// Visiting the directories of a listing before the visits that were pending comes
/// to the same as adding up those directories first.
proof fn lemma_descend(
    entries: Seq<Entry<Tree>>,
    seen: Seq<Entry<&Tree>>,
    depth: usize,
    rest: Seq<(&Tree, usize)>,
)
    requires
        depth > 0,
        reports_all(entries, seen),
    ensures
        file_bytes(seen) == file_bytes(entries),
        first_failure(seen) == first_failure(entries),
        outcome_pending(one_level_down(subdirectories(seen), depth) + rest) == match outcome_below(
            entries,
            (depth - 1) as nat,
        ) {
            Ok(n) => plus(n, outcome_pending(rest)),
            Err(e) => Err(e),
        },
        bytes_pending(one_level_down(subdirectories(seen), depth) + rest) == bytes_below(
            entries,
            (depth - 1) as nat,
        ) + bytes_pending(rest),
        visits_pending(one_level_down(subdirectories(seen), depth) + rest) == visits_below(
            entries,
            (depth - 1) as nat,
        ) + visits_pending(rest),
    decreases entries.len(),
{
    if entries.len() == 0 {
        assert(one_level_down(subdirectories(seen), depth) + rest =~= rest);
        match outcome_pending(rest) {
            Ok(n) => {},
            Err(e) => {},
        }
    } else {
        let tail = entries.drop_first();
        let seen_tail = seen.drop_first();
        assert(reports(entries[0], seen[0]));
        assert forall|i: int| 0 <= i < tail.len() implies reports(
            tail[i],
            #[trigger] seen_tail[i],
        ) by {
            assert(reports(entries[i + 1], seen[i + 1]));
        }
        lemma_descend(tail, seen_tail, depth, rest);
        match seen.first() {
            Entry::Directory(path) => {
                let joined = one_level_down(subdirectories(seen), depth) + rest;
                assert(joined[0] == (path, (depth - 1) as usize));
                assert(joined.drop_first() =~= one_level_down(subdirectories(seen_tail), depth) + rest);
                lemma_pending_unfold(joined);
            },
            _ => {
                assert(subdirectories(seen) == subdirectories(seen_tail));
            },
        }
    }
}

} // verus!
