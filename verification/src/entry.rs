use vstd::prelude::*;

verus! {

/// A node of a dependency graph: the path of one source file. Ordered, so
/// that graphs can be kept in ordered maps and sets.
#[derive(Debug, PartialEq, Eq, PartialOrd, Ord, Clone)]
pub struct Entry {
    pub path: String,
}

impl Entry {
    /// Wraps a path in a graph node.
    pub fn new(path: String) -> (r: Self)
        ensures
            r.path == path,
    {
        Entry { path }
    }
}

} // verus!
