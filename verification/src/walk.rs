use vstd::prelude::*;
use crate::error::SizeError;

verus! {

/// The number of directory levels that are read when the user asks for the size
/// of a path.
pub const DEPTH_LIMIT: usize = 3;

/// What a directory holds under one of its names. `P` is the type of a path: the
/// walk hands paths on and never looks into one.
#[derive(Debug, PartialEq, Eq)]
pub enum Entry<P> {
    /// The entry could not be read while the directory was enumerated.
    Unreadable(String),
    /// Not a directory; its length in bytes.
    File(u64),
    /// Not a directory, and its length could not be read.
    Failed(String),
    /// A directory, which can be visited under this path.
    Directory(P),
}

/// What a visit found at a path.
#[derive(Debug, PartialEq, Eq)]
pub enum Found<P> {
    /// Nothing exists at the path.
    Missing,
    /// A regular file of this length in bytes.
    File(u64),
    /// A read of the path's metadata or of its contents failed.
    Failed(String),
    /// Anything else, which is taken for a directory, with its entries in the order
    /// in which they were read; none where the visit was told not to read them.
    Directory(Vec<Entry<P>>),
}

/// The bytes of the files among `entries`.
pub open spec fn file_bytes<P>(entries: Seq<Entry<P>>) -> nat
    decreases entries.len(),
{
    if entries.len() == 0 {
        0
    } else {
        let rest = file_bytes(entries.drop_first());
        match entries.first() {
            Entry::File(len) => len as nat + rest,
            _ => rest,
        }
    }
}

/// The paths of the directories among `entries`, in their order.
pub open spec fn subdirectories<P>(entries: Seq<Entry<P>>) -> Seq<P>
    decreases entries.len(),
{
    if entries.len() == 0 {
        Seq::empty()
    } else {
        let rest = subdirectories(entries.drop_first());
        match entries.first() {
            Entry::Directory(path) => seq![path] + rest,
            _ => rest,
        }
    }
}

/// The reason of the first entry whose length could not be read, if there is one.
pub open spec fn first_failure<P>(entries: Seq<Entry<P>>) -> Option<String>
    decreases entries.len(),
{
    if entries.len() == 0 {
        None
    } else {
        match entries.first() {
            Entry::Failed(reason) => Some(reason),
            _ => first_failure(entries.drop_first()),
        }
    }
}

/// The visits that a directory read at `depth` levels owes to its directories
/// `paths`: one of each, a level lower.
pub open spec fn one_level_down<P>(paths: Seq<P>, depth: usize) -> Seq<(P, usize)> {
    paths.map_values(|path: P| (path, (depth - 1) as usize))
}

/// A walk between two visits: the paths still to visit, each with the number of
/// directory levels that may be read from it downwards, and the bytes counted so far.
#[derive(Debug)]
pub struct Walk<P> {
    stack: Vec<(P, usize)>,
    total: u64,
}

/// A walk that has handed out a path and waits for what the visit finds there.
#[derive(Debug)]
pub struct Suspended<P> {
    walk: Walk<P>,
    depth: usize,
}

/// What a walk asks for next.
#[derive(Debug)]
pub enum Step<P> {
    /// Nothing is left to visit: the sum of all files that were counted.
    Done(u64),
    /// Visit `path`. Where it is a directory, read its entries only if `list` is set.
    Visit { path: P, list: bool, rest: Suspended<P> },
}

impl<P> Walk<P> {
    /// The visits that are still to be made, the next one first.
    pub closed spec fn pending(&self) -> Seq<(P, usize)> {
        self.stack@.reverse()
    }

    /// The bytes counted so far.
    pub closed spec fn total(&self) -> nat {
        self.total as nat
    }

    /// A walk that is to visit `root` and to read at most `depth` levels of directories.
    pub fn start(root: P, depth: usize) -> (walk: Walk<P>)
        ensures
            walk.pending() == seq![(root, depth)],
            walk.total() == 0,
    {
        let mut stack = Vec::new();
        stack.push((root, depth));
        let walk = Walk { stack, total: 0 };
        assert(walk.stack@.reverse() =~= seq![(root, depth)]);
        walk
    }

    /// Takes the next visit off the walk, or ends it.
    pub fn step(self) -> (step: Step<P>)
        ensures
            self.pending().len() == 0 ==> step == Step::<P>::Done(self.total() as u64),
            self.pending().len() > 0 ==> (step matches Step::Visit { path, list, rest }
                && path == self.pending()[0].0
                && list == (self.pending()[0].1 > 0)
                && rest.depth() == self.pending()[0].1
                && rest.walk().pending() == self.pending().drop_first()
                && rest.walk().total() == self.total()),
    {
        let mut walk = self;
        match walk.stack.pop() {
            None => Step::Done(walk.total),
            Some((path, depth)) => {
                assert(walk.stack@.reverse() =~= self.stack@.reverse().drop_first());
                Step::Visit { path, list: depth > 0, rest: Suspended { walk, depth } }
            },
        }
    }
}

/// The bytes of the files in a part of `entries` are among those of all of them.
proof fn lemma_file_bytes_skip<P>(entries: Seq<Entry<P>>, n: int)
    requires
        0 <= n <= entries.len(),
    ensures
        file_bytes(entries.skip(n)) <= file_bytes(entries),
    decreases n,
{
    if n == 0 {
        assert(entries.skip(0) =~= entries);
    } else {
        lemma_file_bytes_skip(entries, n - 1);
        assert(entries.skip(n - 1).drop_first() =~= entries.skip(n));
    }
}

impl<P> Suspended<P> {
    /// The walk as it stands without the visit that is under way.
    pub closed spec fn walk(&self) -> Walk<P> {
        self.walk
    }

    /// The levels of directories that may be read from the visited path downwards.
    pub closed spec fn depth(&self) -> usize {
        self.depth
    }

    /// Whether the bytes that `found` reports can be added to the walk's total.
    pub open spec fn fits(&self, found: Found<P>) -> bool {
        match found {
            Found::File(len) => self.walk().total() + len <= u64::MAX,
            Found::Directory(entries) => self.depth() > 0 ==> self.walk().total() + file_bytes(
                entries@,
            ) <= u64::MAX,
            _ => true,
        }
    }

    /// Tells whether `resume` may be called with `found`: whether the total stays
    /// within `u64`.
    pub fn accepts(&self, found: &Found<P>) -> (ok: bool)
        ensures
            ok == self.fits(*found),
    {
        match found {
            Found::File(len) => *len <= u64::MAX - self.walk.total,
            Found::Directory(entries) => {
                if self.depth == 0 {
                    return true;
                }
                let mut room: u64 = u64::MAX - self.walk.total;
                let mut i: usize = entries.len();
                while i > 0
                    invariant
                        self.depth > 0,
                        *found == Found::Directory(*entries),
                        i <= entries.len(),
                        room + file_bytes(entries@.skip(i as int)) == u64::MAX - self.walk.total,
                    decreases i,
                {
                    i -= 1;
                    assert(entries@.skip(i as int).drop_first() =~= entries@.skip(i + 1));
                    assert(entries@.skip(i as int).first() == entries@[i as int]);
                    if let Entry::File(len) = &entries[i] {
                        if *len > room {
                            proof {
                                lemma_file_bytes_skip(entries@, i as int);
                            }
                            return false;
                        }
                        room -= *len;
                    }
                }
                assert(entries@.skip(0) =~= entries@);
                true
            },
            _ => true,
        }
    }

    /// Takes in what the visit found and gives the walk back, or the error that ends it.
    ///
    /// A missing path and a failed read end the walk. A file adds its length. A
    /// directory that may not be read adds nothing. One that may be read adds the
    /// lengths of its files and puts its directories, one level lower, before the
    /// visits that were already pending; an entry whose length could not be read ends
    /// the walk, and one that could not be enumerated is passed over.
    pub fn resume(self, found: Found<P>) -> (result: Result<Walk<P>, SizeError>)
        requires
            self.fits(found),
        ensures
            match found {
                Found::Missing => result == Err::<Walk<P>, SizeError>(SizeError::NotFound),
                Found::Failed(reason) => result == Err::<Walk<P>, SizeError>(SizeError::Io(reason)),
                Found::File(len) => result matches Ok(walk) && walk.pending()
                    == self.walk().pending() && walk.total() == self.walk().total() + len,
                Found::Directory(entries) => if self.depth() == 0 {
                    result == Ok::<Walk<P>, SizeError>(self.walk())
                } else {
                    match first_failure(entries@) {
                        Some(reason) => result == Err::<Walk<P>, SizeError>(SizeError::Io(reason)),
                        None => result matches Ok(walk) && walk.pending() == one_level_down(
                            subdirectories(entries@),
                            self.depth(),
                        ) + self.walk().pending() && walk.total() == self.walk().total()
                            + file_bytes(entries@),
                    }
                },
            },
    {
        let Suspended { walk, depth } = self;
        match found {
            Found::Missing => Err(SizeError::NotFound),
            Found::Failed(reason) => Err(SizeError::Io(reason)),
            Found::File(len) => Ok(Walk { stack: walk.stack, total: walk.total + len }),
            Found::Directory(entries) => {
                if depth == 0 {
                    return Ok(walk);
                }
                let ghost all = entries@;
                let ghost before = walk;
                let mut entries = entries;
                let mut stack = walk.stack;
                let mut total = walk.total;
                let mut failure: Option<String> = None;
                while entries.len() > 0
                    invariant
                        depth > 0,
                        entries@.len() <= all.len(),
                        entries@ == all.take(entries@.len() as int),
                        before.total + file_bytes(all) <= u64::MAX,
                        total == before.total + file_bytes(all.skip(entries@.len() as int)),
                        stack@.reverse() == one_level_down(
                            subdirectories(all.skip(entries@.len() as int)),
                            depth,
                        ) + before.stack@.reverse(),
                        failure == first_failure(all.skip(entries@.len() as int)),
                    decreases entries@.len(),
                {
                    let ghost n = entries@.len() as int;
                    let entry = entries.pop().unwrap();
                    proof {
                        assert(all.skip(n - 1).drop_first() =~= all.skip(n));
                        assert(all.skip(n - 1).first() == entry);
                        lemma_file_bytes_skip(all, n - 1);
                    }
                    match entry {
                        Entry::Unreadable(_) => {},
                        Entry::File(len) => {
                            total += len;
                        },
                        Entry::Failed(reason) => {
                            failure = Some(reason);
                        },
                        Entry::Directory(path) => {
                            let ghost lower = stack@;
                            stack.push((path, depth - 1));
                            assert(stack@.reverse() =~= seq![(path, (depth - 1) as usize)]
                                + lower.reverse());
                            assert(one_level_down(subdirectories(all.skip(n - 1)), depth) =~= seq![
                                (path, (depth - 1) as usize),
                            ] + one_level_down(subdirectories(all.skip(n)), depth));
                        },
                    }
                }
                assert(all.skip(0) =~= all);
                match failure {
                    Some(reason) => Err(SizeError::Io(reason)),
                    None => Ok(Walk { stack, total }),
                }
            },
        }
    }
}

} // verus!
