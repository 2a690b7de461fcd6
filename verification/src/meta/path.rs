//! Absolute paths as sequences of components.
//!
//! A path is held as the names of its components, from the root down. The
//! first component is the root itself, so no path is empty.

use vstd::prelude::*;

verus! {

/// Whether `base` is made of the first components of `path`.
pub open spec fn is_prefix(base: Seq<Seq<char>>, path: Seq<Seq<char>>) -> bool {
    &&& base.len() <= path.len()
    &&& forall|k: int| 0 <= k < base.len() ==> base[k] == path[k]
}

/// The components of a list of names, each as its characters.
pub open spec fn names_view(names: Seq<String>) -> Seq<Seq<char>> {
    names.map_values(|name: String| name@)
}

/// An absolute path without `.` or `..`: the root and the names below it.
pub struct AbsolutePath {
    components: Vec<String>,
}

impl View for AbsolutePath {
    type V = Seq<Seq<char>>;

    closed spec fn view(&self) -> Seq<Seq<char>> {
        names_view(self.components@)
    }
}

impl AbsolutePath {
    /// A path has at least its root.
    pub closed spec fn wf(&self) -> bool {
        self.components@.len() >= 1
    }

    /// Makes a path of its components, the root first; `None` without any.
    pub fn new(components: Vec<String>) -> (path: Option<AbsolutePath>)
        ensures
            path is Some <==> components@.len() >= 1,
            path matches Some(p) ==> p.wf() && p@ == names_view(components@),
    {
        if components.len() == 0 {
            None
        } else {
            Some(AbsolutePath { components })
        }
    }

    /// The components of the path, the root first.
    pub fn components(&self) -> (components: &Vec<String>)
        ensures
            names_view(components@) == self@,
    {
        &self.components
    }

    /// Whether `base` is this path or one of the folders above it. Only
    /// whole components count.
    pub fn starts_with(&self, base: &AbsolutePath) -> (within: bool)
        ensures
            within == is_prefix(base@, self@),
    {
        let n = base.components.len();
        if n > self.components.len() {
            return false;
        }
        let mut k: usize = 0;
        while k < n
            invariant
                n == base.components@.len(),
                n <= self.components@.len(),
                k <= n,
                forall|l: int| 0 <= l < k ==> base@[l] == self@[l],
            decreases n - k,
        {
            if base.components[k] != self.components[k] {
                assert(base@[k as int] != self@[k as int]);
                return false;
            }
            k += 1;
        }
        true
    }

    /// The folder that holds this path, and the path's name in it; `None` for
    /// the root, which no folder holds.
    pub fn split(&self) -> (parts: Option<(AbsolutePath, String)>)
        requires
            self.wf(),
        ensures
            parts is Some <==> self@.len() >= 2,
            parts matches Some((folder, name)) ==> {
                &&& folder.wf()
                &&& folder@ == self@.drop_last()
                &&& name@ == self@.last()
            },
    {
        let n = self.components.len();
        if n < 2 {
            return None;
        }
        let mut components: Vec<String> = Vec::new();
        let mut k: usize = 0;
        while k < n - 1
            invariant
                n == self.components@.len(),
                n >= 2,
                k <= n - 1,
                components@.len() == k,
                forall|l: int| 0 <= l < k ==> components@[l]@ == self.components@[l]@,
            decreases n - k,
        {
            components.push(self.components[k].clone());
            k += 1;
        }
        let folder = AbsolutePath { components };
        assert(folder@ =~= self@.drop_last());
        Some((folder, self.components[n - 1].clone()))
    }

    /// The names that lead from `base` to this path; `None` where the path
    /// neither is `base` nor lies under it.
    pub fn strip_prefix(&self, base: &AbsolutePath) -> (rest: Option<Vec<String>>)
        ensures
            rest is Some <==> is_prefix(base@, self@),
            rest matches Some(names) ==> names_view(names@) == self@.skip(base@.len() as int),
    {
        if !self.starts_with(base) {
            return None;
        }
        let n = self.components.len();
        let start = base.components.len();
        let mut names: Vec<String> = Vec::new();
        let mut k: usize = start;
        while k < n
            invariant
                n == self.components@.len(),
                start == base.components@.len(),
                start <= k <= n,
                names@.len() == k - start,
                forall|l: int| 0 <= l < k - start ==> names@[l]@ == self.components@[start + l]@,
            decreases n - k,
        {
            names.push(self.components[k].clone());
            k += 1;
        }
        assert(names_view(names@) =~= self@.skip(base@.len() as int));
        Some(names)
    }

    /// A copy of the path.
    pub fn duplicate(&self) -> (copy: AbsolutePath)
        ensures
            copy@ == self@,
            copy.wf() == self.wf(),
    {
        let n = self.components.len();
        let mut components: Vec<String> = Vec::new();
        let mut k: usize = 0;
        while k < n
            invariant
                n == self.components@.len(),
                k <= n,
                components@.len() == k,
                forall|l: int| 0 <= l < k ==> components@[l]@ == self.components@[l]@,
            decreases n - k,
        {
            components.push(self.components[k].clone());
            k += 1;
        }
        let copy = AbsolutePath { components };
        assert(copy@ =~= self@);
        copy
    }
}

} // verus!
