use vstd::prelude::*;
use crate::text::str_eq;

verus! {

/// The set of absolute paths that have already been versioned in this run.
/// `check_and_mark` is the one operation: it tests and records a path in a
/// single step, so a path is never versioned twice in one run.
pub struct ProcessedRegistry {
    pub paths: Vec<String>,
}

impl ProcessedRegistry {
    pub open spec fn has_path(self, p: Seq<char>) -> bool {
        exists|i: int| 0 <= i < self.paths@.len() && self.paths@[i]@ == p
    }

    pub fn new() -> (r: ProcessedRegistry)
        ensures
            forall|p: Seq<char>| !(#[trigger] r.has_path(p)),
    {
        ProcessedRegistry { paths: Vec::new() }
    }

    /// Atomically test whether `path` was already processed and mark it as
    /// processed; returns the answer of the test.
    pub fn check_and_mark(&mut self, path: &str) -> (already: bool)
        ensures
            already == old(self).has_path(path@),
            forall|p: Seq<char>|
                #[trigger] final(self).has_path(p) == (old(self).has_path(p) || p == path@),
    {
        let mut i: usize = 0;
        while i < self.paths.len()
            invariant
                i <= self.paths@.len(),
                forall|j: int| 0 <= j < i ==> self.paths@[j]@ != path@,
            decreases self.paths@.len() - i,
        {
            if str_eq(self.paths[i].as_str(), path) {
                return true;
            }
            i += 1;
        }
        assert(!self.has_path(path@));
        let ghost before = self.paths@;
        self.paths.push(path.to_owned());
        proof {
            assert forall|p: Seq<char>|
                #[trigger] self.has_path(p) == (old(self).has_path(p) || p == path@) by {
                if self.has_path(p) {
                    let k = choose|k: int| 0 <= k < self.paths@.len() && self.paths@[k]@ == p;
                    if k < before.len() {
                        assert(before[k]@ == p);
                    } else {
                        assert(self.paths@[k]@ == path@);
                    }
                }
                if old(self).has_path(p) {
                    let k = choose|k: int| 0 <= k < before.len() && before[k]@ == p;
                    assert(self.paths@[k]@ == p);
                }
                if p == path@ {
                    assert(self.paths@[before.len() as int]@ == p);
                }
            }
        }
        false
    }

    /// How many distinct paths have been marked.
    pub fn marked_count(&self) -> (n: usize)
        ensures
            n == self.paths@.len(),
    {
        self.paths.len()
    }
}

} // verus!
