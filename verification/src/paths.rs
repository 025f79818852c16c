use vstd::prelude::*;
use crate::text::{begins_with, starts_with};

verus! {

/// The names among `names` that begin with `typed`, in their order.
pub open spec fn completing(names: Seq<String>, typed: Seq<char>) -> Seq<String> {
    names.filter(|name: String| begins_with(name@, typed))
}

/// Picks the names that complete what was typed: those that begin with it.
pub fn completions(names: &Vec<String>, typed: &str) -> (matching: Vec<String>)
    ensures
        matching@ == completing(names@, typed@),
{
    let ghost keep = |name: String| begins_with(name@, typed@);
    let mut matching: Vec<String> = Vec::new();
    let mut i: usize = 0;
    while i < names.len()
        invariant
            i <= names.len(),
            keep == (|name: String| begins_with(name@, typed@)),
            matching@ == names@.take(i as int).filter(keep),
        decreases names.len() - i,
    {
        proof {
            reveal_with_fuel(Seq::<_>::filter, 1);
            assert(names@.take(i + 1).drop_last() =~= names@.take(i as int));
        }
        if starts_with(names[i].as_str(), typed) {
            matching.push(names[i].clone());
        }
        i += 1;
    }
    assert(names@.take(names@.len() as int) =~= names@);
    matching
}

/// The path of `name` in the directory `dir`: the two with a slash between them.
pub fn join(dir: &str, name: &str) -> (path: String)
    ensures
        path@ == dir@ + seq!['/'] + name@,
{
    let mut path = dir.to_string();
    proof {
        reveal_strlit("/");
    }
    path.append("/");
    path.append(name);
    path
}

/// Where a copy of the entry named `source_name` goes: into `target_path` where
/// that is a directory, else to `target_path` itself.
pub fn paste_target(source_name: &str, target_path: String, target_is_dir: bool) -> (target: String)
    ensures
        target@ == if target_is_dir {
            target_path@ + seq!['/'] + source_name@
        } else {
            target_path@
        },
{
    if target_is_dir {
        join(target_path.as_str(), source_name)
    } else {
        target_path
    }
}

} // verus!
