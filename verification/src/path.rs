//! Paths as the lists of their components.

use vstd::prelude::*;

verus! {

/// A path, by its components from the first to the last, each in the encoding of the platform.
///
/// Two paths are the same path where their components are, however they were written.
pub struct FilePath {
    /// The components.
    pub components: Vec<Vec<u8>>,
}

impl View for FilePath {
    type V = Seq<Seq<u8>>;

    open spec fn view(&self) -> Seq<Seq<u8>> {
        self.components@.map_values(|component: Vec<u8>| component@)
    }
}

/// Whether two components are the same.
fn same_component(a: &Vec<u8>, b: &Vec<u8>) -> (same: bool)
    ensures
        same == (a@ == b@),
{
    if a.len() != b.len() {
        return false;
    }
    let mut i: usize = 0;
    while i < a.len()
        invariant
            i <= a.len(),
            a.len() == b.len(),
            forall|k: int| 0 <= k < i ==> a@[k] == b@[k],
        decreases a.len() - i,
    {
        if a[i] != b[i] {
            return false;
        }
        i = i + 1;
    }
    assert(a@ =~= b@);
    true
}

impl FilePath {
    /// Whether the components of `base` are the first components of this path.
    pub fn starts_with(&self, base: &FilePath) -> (starts: bool)
        ensures
            starts == base@.is_prefix_of(self@),
    {
        if base.components.len() > self.components.len() {
            return false;
        }
        let mut i: usize = 0;
        while i < base.components.len()
            invariant
                i <= base.components.len(),
                base.components.len() <= self.components.len(),
                forall|k: int| 0 <= k < i ==> #[trigger] base@[k] == self@[k],
            decreases base.components.len() - i,
        {
            if !same_component(&base.components[i], &self.components[i]) {
                assert(base@[i as int] != self@[i as int]);
                assert(self@.subrange(0, base@.len() as int)[i as int] == self@[i as int]);
                return false;
            }
            i = i + 1;
        }
        assert(base@ =~= self@.subrange(0, base@.len() as int));
        true
    }

    /// What is left of this path below `root`, or `None` if it does not lie there.
    pub fn below(&self, root: &FilePath) -> (rest: Option<FilePath>)
        ensures
            rest is Some <==> root@.is_prefix_of(self@),
            rest matches Some(rest) ==> rest@ == self@.skip(root@.len() as int),
    {
        if !self.starts_with(root) {
            return None;
        }
        let mut components: Vec<Vec<u8>> = Vec::new();
        let mut i: usize = root.components.len();
        while i < self.components.len()
            invariant
                root.components.len() <= i <= self.components.len(),
                components.len() == i - root.components.len(),
                forall|k: int|
                    0 <= k < components.len() ==> (#[trigger] components@[k])@
                        == self@[root.components.len() + k],
            decreases self.components.len() - i,
        {
            let component: Vec<u8> = self.components[i].clone();
            assert(component@ =~= self.components@[i as int]@);
            components.push(component);
            i = i + 1;
        }
        let rest: FilePath = FilePath { components };
        assert(rest@ =~= self@.skip(root@.len() as int));
        Some(rest)
    }

    /// Whether both are the same path.
    pub fn is_same(&self, other: &FilePath) -> (same: bool)
        ensures
            same == (self@ == other@),
    {
        let same: bool = self.components.len() == other.components.len() && self.starts_with(
            other,
        );
        proof {
            if same {
                assert(self@.subrange(0, other@.len() as int) =~= self@);
            } else if self@ == other@ {
                assert(self@.subrange(0, other@.len() as int) =~= self@);
            }
        }
        same
    }
}

/// A path is its components, none left out and in their order.
pub proof fn law_paths_are_their_components(path: FilePath)
    ensures
        path@.len() == path.components@.len(),
        forall|i: int| 0 <= i < path@.len() ==> #[trigger] path@[i] == path.components@[i]@,
{
}

} // verus!
