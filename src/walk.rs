//! The traverser: an explicit-stack depth-first walk over paths given as
//! their components. Listing directories is left to the caller, which hands
//! the entries back through `descend`.

use vstd::prelude::*;
use crate::exclude::{is_excluded, parts_view, path_excluded};

verus! {

/// The paths still to be examined, the most recently pushed last.
pub struct Walk {
    stack: Vec<Vec<Option<String>>>,
}

/// The component texts of each path of a list.
pub open spec fn paths_view(paths: Seq<Vec<Option<String>>>) -> Seq<Seq<Option<Seq<char>>>> {
    paths.map_values(|p: Vec<Option<String>>| parts_view(p@))
}

/// The next thing the walk has found.
#[derive(Debug, Clone, PartialEq, Eq)]
pub enum Step {
    /// No path is left.
    Finished,
    /// A path that an exclusion pattern rules out; nothing below it is examined.
    Excluded(Vec<Option<String>>),
    /// A path to examine: a directory to list, or a file to process.
    Candidate(Vec<Option<String>>),
}

impl View for Walk {
    type V = Seq<Seq<Option<Seq<char>>>>;

    closed spec fn view(&self) -> Seq<Seq<Option<Seq<char>>>> {
        paths_view(self.stack@)
    }
}

impl Walk {
    /// A walk seeded with the root paths.
    pub fn new(roots: Vec<Vec<Option<String>>>) -> (r: Walk)
        ensures
            r@ == paths_view(roots@),
    {
        Walk { stack: roots }
    }

    /// Whether no path is left.
    pub fn is_done(&self) -> (r: bool)
        ensures
            r == (self@.len() == 0),
    {
        self.stack.len() == 0
    }

    /// Takes the most recently pushed path and says whether `excludes` rule
    /// it out.
    pub fn next(&mut self, excludes: &Vec<String>) -> (r: Step)
        ensures
            old(self)@.len() == 0 ==> r is Finished && final(self)@ == old(self)@,
            old(self)@.len() > 0 ==> final(self)@ == old(self)@.drop_last() && match r {
                Step::Excluded(p) => parts_view(p@) == old(self)@.last() && path_excluded(
                    parts_view(p@),
                    excludes@.map_values(|s: String| s@),
                ),
                Step::Candidate(p) => parts_view(p@) == old(self)@.last() && !path_excluded(
                    parts_view(p@),
                    excludes@.map_values(|s: String| s@),
                ),
                Step::Finished => false,
            },
    {
        let ghost before = self.stack@;
        match self.stack.pop() {
            None => Step::Finished,
            Some(p) => {
                assert(paths_view(self.stack@) =~= paths_view(before).drop_last());
                if is_excluded(&p, excludes) {
                    Step::Excluded(p)
                } else {
                    Step::Candidate(p)
                }
            },
        }
    }

    /// Pushes each entry of directory `dir`, named by `names`, as the path
    /// `dir` followed by that name.
    pub fn descend(&mut self, dir: &Vec<Option<String>>, names: Vec<Option<String>>)
        ensures
            final(self)@.len() == old(self)@.len() + names.len(),
            final(self)@.subrange(0, old(self)@.len() as int) == old(self)@,
            forall|k: int|
                0 <= k < names.len() ==> #[trigger] final(self)@[old(self)@.len() + k]
                    == parts_view(dir@).push(parts_view(names@)[k]),
    {
        let ghost start = self@;
        let mut k: usize = 0;
        while k < names.len()
            invariant
                k <= names.len(),
                self@.len() == start.len() + k,
                self@.subrange(0, start.len() as int) == start,
                forall|q: int|
                    0 <= q < k ==> #[trigger] self@[start.len() + q] == parts_view(dir@).push(
                        parts_view(names@)[q],
                    ),
            decreases names.len() - k,
        {
            let mut child = dir.clone();
            child.push(names[k].clone());
            let ghost before = self.stack@;
            self.stack.push(child);
            proof {
                assert(self.stack@ == before.push(child));
                assert(paths_view(self.stack@) =~= paths_view(before).push(parts_view(child@)));
                assert(parts_view(child@) =~= parts_view(dir@).push(parts_view(names@)[k as int]));
                assert(self@.subrange(0, start.len() as int) =~= paths_view(before).subrange(
                    0,
                    start.len() as int,
                ));
            }
            k = k + 1;
        }
    }
}

} // verus!
