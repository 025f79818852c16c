use vstd::prelude::*;
use crate::text::{begins_with, contains, lowercase, occurs_in, starts_with, to_lowercase};

verus! {

/// One entry of a directory as it is shown to the user.
#[derive(Debug, PartialEq, Eq)]
pub struct FileInfo {
    pub name: String,
    pub path: String,
    /// Length in bytes.
    pub size: u64,
    /// Time of creation in seconds since the Unix epoch, 0 where it is not known.
    pub created: u64,
    pub is_dir: bool,
}

/// The entries of a directory that are shown, and how many of them are files and
/// how many are folders.
#[derive(Debug, PartialEq, Eq)]
pub struct ListFilesResponse {
    pub files: Vec<FileInfo>,
    pub total_files: usize,
    pub total_folders: usize,
}

/// Whether a name is that of a hidden entry: one that begins with a dot.
pub open spec fn hidden(name: Seq<char>) -> bool {
    begins_with(name, seq!['.'])
}

/// Whether a name answers a search: every name answers the empty search, and any
/// other search is answered by the names that hold it, letter case set aside.
pub open spec fn answers(name: Seq<char>, search_query: Seq<char>) -> bool {
    search_query.len() == 0 || occurs_in(lowercase(name), lowercase(search_query))
}

/// Whether an entry of this name is shown for this search.
pub open spec fn listed(name: Seq<char>, search_query: Seq<char>) -> bool {
    !hidden(name) && answers(name, search_query)
}

/// The number of folders among `files`.
pub open spec fn folders(files: Seq<FileInfo>) -> nat
    decreases files.len(),
{
    if files.len() == 0 {
        0
    } else {
        folders(files.drop_last()) + if files.last().is_dir {
            1nat
        } else {
            0nat
        }
    }
}

/// Tells whether a name is that of a hidden entry.
pub fn is_hidden(name: &str) -> (yes: bool)
    ensures
        yes == hidden(name@),
{
    proof {
        reveal_strlit(".");
        assert("."@ =~= seq!['.']);
    }
    starts_with(name, ".")
}

/// Tells whether a name answers a search.
pub fn matches_search(name: &str, search_query: &str) -> (yes: bool)
    ensures
        yes == answers(name@, search_query@),
{
    if search_query.is_empty() {
        return true;
    }
    let name = to_lowercase(name);
    let search = to_lowercase(search_query);
    contains(name.as_str(), search.as_str())
}

/// Tells whether an entry of this name is shown for this search.
pub fn is_listed(name: &str, search_query: &str) -> (yes: bool)
    ensures
        yes == listed(name@, search_query@),
{
    !is_hidden(name) && matches_search(name, search_query)
}

impl ListFilesResponse {
    /// The answer that shows `files`: the entries as they are, and their tally.
    pub fn new(files: Vec<FileInfo>) -> (response: ListFilesResponse)
        ensures
            response.files == files,
            response.total_folders == folders(files@),
            response.total_files == files@.len() - folders(files@),
    {
        let mut total_files: usize = 0;
        let mut total_folders: usize = 0;
        let mut i: usize = 0;
        while i < files.len()
            invariant
                i <= files.len(),
                total_folders == folders(files@.take(i as int)),
                total_files + total_folders == i,
            decreases files.len() - i,
        {
            assert(files@.take(i + 1).drop_last() =~= files@.take(i as int));
            if files[i].is_dir {
                total_folders += 1;
            } else {
                total_files += 1;
            }
            i += 1;
        }
        assert(files@.take(files@.len() as int) =~= files@);
        ListFilesResponse { files, total_files, total_folders }
    }
}

} // verus!
