//! Paths that name an object by the chain of names leading to it.

use vstd::prelude::*;

verus! {

/// The names to follow, child by child, from an animation root down to the
/// object that a curve drives. The root itself is not named: the empty path
/// is the root.
#[derive(Clone, Debug, PartialEq, Eq)]
pub struct TargetPath {
    pub parts: Vec<String>,
}

impl View for TargetPath {
    type V = Seq<Seq<char>>;

    open spec fn view(&self) -> Seq<Seq<char>> {
        self.parts@.map_values(|s: String| s@)
    }
}

impl TargetPath {
    /// The path that follows `parts` in order.
    pub fn new(parts: Vec<String>) -> (path: TargetPath)
        ensures
            path.parts == parts,
    {
        TargetPath { parts }
    }

    /// The number of names in the path.
    pub fn len(&self) -> (n: usize)
        ensures
            n == self@.len(),
    {
        self.parts.len()
    }

    /// A copy of the path.
    pub fn duplicate(&self) -> (copy: TargetPath)
        ensures
            copy@ == self@,
    {
        let n: usize = self.parts.len();
        let mut parts: Vec<String> = Vec::new();
        let mut k: usize = 0;
        while k < n
            invariant
                n == self.parts@.len(),
                k <= n,
                parts@.len() == k,
                forall|j: int| 0 <= j < k ==> parts@[j]@ == self.parts@[j]@,
            decreases n - k,
        {
            parts.push(self.parts[k].clone());
            k += 1;
        }
        let copy = TargetPath { parts };
        copy
    }

    /// Whether two paths follow the same names.
    pub fn same_as(&self, other: &TargetPath) -> (same: bool)
        ensures
            same == (self@ == other@),
    {
        let n: usize = self.parts.len();
        if n != other.parts.len() {
            assert(self@.len() != other@.len());
            return false;
        }
        let mut k: usize = 0;
        while k < n
            invariant
                n == self.parts@.len(),
                n == other.parts@.len(),
                k <= n,
                forall|j: int| 0 <= j < k ==> self@[j] == other@[j],
            decreases n - k,
        {
            if self.parts[k] != other.parts[k] {
                assert(self@[k as int] != other@[k as int]);
                return false;
            }
            k += 1;
        }
        assert(self@ =~= other@);
        true
    }
}

} // verus!
