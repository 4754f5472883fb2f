//! The folder tree as a mathematical value, and what each operation does to it.
//!
//! A tree is a sequence of nodes, each addressed by its index. A node records
//! its name, the index of its parent and the indices of its children in the
//! order in which they were created. A removed node stays in the sequence as a
//! dead slot, so the index of a node never changes and is never given twice.

use vstd::prelude::*;
use crate::error::{invalid_name_text, not_empty_text, not_found_text, ErrorView};
use crate::path::{parent_segment, segments, valid_name, RENDER_SEPARATOR};

verus! {

/// One slot of the tree.
pub struct NodeModel {
    pub name: Seq<char>,
    /// The index of the parent; the root has none.
    pub parent: Option<usize>,
    /// The indices of the children, oldest first.
    pub children: Seq<usize>,
    /// Whether a folder stands in this slot.
    pub live: bool,
}

impl NodeModel {
    /// The slot that a removed folder leaves behind.
    pub open spec fn vacant() -> NodeModel {
        NodeModel { name: Seq::empty(), parent: None, children: Seq::empty(), live: false }
    }
}

/// The folder tree: its slots, the root at index 0.
pub struct TreeModel {
    pub nodes: Seq<NodeModel>,
}

impl TreeModel {
    /// The index of the root.
    pub open spec fn root() -> usize {
        0
    }

    /// `n` is the index of a folder that exists.
    pub open spec fn contains(self, n: usize) -> bool {
        n < self.nodes.len() && self.nodes[n as int].live
    }

    /// The name of `n`.
    pub open spec fn name_of(self, n: usize) -> Seq<char> {
        self.nodes[n as int].name
    }

    /// The parent that `n` records.
    pub open spec fn parent_of(self, n: usize) -> Option<usize> {
        self.nodes[n as int].parent
    }

    /// The children that `n` lists, oldest first.
    pub open spec fn children_of(self, n: usize) -> Seq<usize> {
        self.nodes[n as int].children
    }

    /// The names of the children of `n`, in the order of the children.
    pub open spec fn child_names(self, n: usize) -> Seq<Seq<char>> {
        self.children_of(n).map_values(|c: usize| self.name_of(c))
    }

    /// A folder other than the root has a valid name and one parent, which
    /// exists, was created before it and lists it among its children.
    pub open spec fn linked_up(self, n: usize) -> bool {
        &&& valid_name(self.name_of(n))
        &&& self.parent_of(n) matches Some(p)
        &&& p < n
        &&& self.contains(p)
        &&& self.children_of(p).contains(n)
    }

    /// The `k`-th child of `p` exists and names `p` as its parent.
    pub open spec fn linked_down(self, p: usize, k: int) -> bool {
        let c = self.children_of(p)[k];
        self.contains(c) && self.parent_of(c) == Some(p)
    }

    /// The tree is rooted and its two relations agree: the root exists and is
    /// the one folder without a parent, every other folder is a child of its
    /// parent, every child names the folder that lists it as its parent, and no
    /// folder is listed twice.
    pub open spec fn wf(self) -> bool {
        &&& self.nodes.len() <= usize::MAX
        &&& self.contains(Self::root())
        &&& self.parent_of(Self::root()) is None
        &&& forall|n: usize| self.contains(n) && n != Self::root() ==> #[trigger] self.linked_up(n)
        &&& forall|p: usize, k: int|
            self.contains(p) && 0 <= k < self.children_of(p).len() ==> #[trigger] self.linked_down(p, k)
        &&& forall|p: usize| #[trigger] self.contains(p) ==> self.children_of(p).no_duplicates()
    }

    /// The names from the root down to `n`, joined by `\`.
    pub open spec fn path_of(self, n: usize) -> Seq<char>
        decreases n,
    {
        if self.parent_of(n) is Some && self.parent_of(n).unwrap() < n {
            self.path_of(self.parent_of(n).unwrap()) + seq![RENDER_SEPARATOR] + self.name_of(n)
        } else {
            self.name_of(n)
        }
    }

    /// How many folders stand above `n`.
    pub open spec fn depth_of(self, n: usize) -> nat
        decreases n,
    {
        if self.parent_of(n) is Some && self.parent_of(n).unwrap() < n {
            1 + self.depth_of(self.parent_of(n).unwrap())
        } else {
            0
        }
    }

    /// The first child of `p` that is called `name`.
    pub open spec fn find_child(self, p: usize, name: Seq<char>) -> Option<usize> {
        match self.child_names(p).index_of_first(name) {
            Some(k) => Some(self.children_of(p)[k]),
            None => None,
        }
    }

    /// One step of a walk: `..` leads to the parent, any other segment to the
    /// first child of that name.
    pub open spec fn step(self, at: usize, segment: Seq<char>) -> Result<usize, ErrorView> {
        if segment == parent_segment() {
            match self.parent_of(at) {
                Some(p) => Ok(p),
                None => Err(ErrorView::InvalidParent),
            }
        } else {
            match self.find_child(at, segment) {
                Some(c) => Ok(c),
                None => Err(ErrorView::InvalidPath),
            }
        }
    }

    /// Where the walk along `segs` from `at` ends, or the error of its first
    /// step that fails.
    pub open spec fn walk(self, at: usize, segs: Seq<Seq<char>>) -> Result<usize, ErrorView>
        decreases segs.len(),
    {
        if segs.len() == 0 {
            Ok(at)
        } else {
            match self.step(at, segs[0]) {
                Ok(next) => self.walk(next, segs.drop_first()),
                Err(e) => Err(e),
            }
        }
    }

    /// The folder that `path` leads to from `from`.
    pub open spec fn open(self, from: usize, path: Seq<char>) -> Result<usize, ErrorView> {
        if !self.contains(from) {
            Err(ErrorView::InvalidParent)
        } else {
            self.walk(from, segments(path))
        }
    }

    /// A tree that holds nothing but a root called `name`.
    pub open spec fn new(name: Seq<char>) -> TreeModel {
        TreeModel {
            nodes: seq![NodeModel { name, parent: None, children: Seq::empty(), live: true }],
        }
    }

    /// The tree with one more folder, called `name`, as the last child of `parent`.
    pub open spec fn with_child(self, parent: usize, name: Seq<char>) -> TreeModel {
        let child = self.nodes.len() as usize;
        let above = self.nodes[parent as int];
        TreeModel {
            nodes: self.nodes.update(
                parent as int,
                NodeModel { children: above.children.push(child), ..above },
            ).push(NodeModel { name, parent: Some(parent), children: Seq::empty(), live: true }),
        }
    }

    /// The tree without the `k`-th child of `parent`.
    pub open spec fn without_child(self, parent: usize, k: int) -> TreeModel {
        let child = self.children_of(parent)[k];
        let above = self.nodes[parent as int];
        TreeModel {
            nodes: self.nodes.update(
                parent as int,
                NodeModel { children: above.children.remove(k), ..above },
            ).update(child as int, NodeModel::vacant()),
        }
    }

    /// Adding a folder called `name` under `parent`: the tree afterwards, and
    /// the index of the new folder or the reason why there is none.
    pub open spec fn add(self, parent: usize, name: Seq<char>) -> (TreeModel, Result<usize, ErrorView>) {
        if !valid_name(name) {
            (self, Err(ErrorView::InvalidName(invalid_name_text())))
        } else if !self.contains(parent) {
            (self, Err(ErrorView::InvalidParent))
        } else {
            (self.with_child(parent, name), Ok(self.nodes.len() as usize))
        }
    }

    /// Removing the first child of `from` that is called `name`: the tree
    /// afterwards, and whether the child was removed.
    pub open spec fn remove(self, from: usize, name: Seq<char>) -> (TreeModel, Result<(), ErrorView>) {
        if !self.contains(from) {
            (self, Err(ErrorView::InvalidParent))
        } else {
            match self.child_names(from).index_of_first(name) {
                None => (self, Err(ErrorView::InvalidName(not_found_text()))),
                Some(k) => {
                    if self.children_of(self.children_of(from)[k]).len() > 0 {
                        (self, Err(ErrorView::FolderNotEmpty(not_empty_text(name))))
                    } else {
                        (self.without_child(from, k), Ok(()))
                    }
                },
            }
        }
    }

    /// What `with_child` leaves as it was, and what it adds.
    pub proof fn lemma_with_child(self, parent: usize, name: Seq<char>)
        requires
            self.wf(),
            self.contains(parent),
            self.nodes.len() < usize::MAX,
        ensures
            ({
                let t = self.with_child(parent, name);
                let child = self.nodes.len() as usize;
                &&& t.nodes.len() == self.nodes.len() + 1
                &&& t.contains(child)
                &&& !self.contains(child)
                &&& t.name_of(child) == name
                &&& t.parent_of(child) == Some(parent)
                &&& t.children_of(child) == Seq::<usize>::empty()
                &&& t.children_of(parent) == self.children_of(parent).push(child)
                &&& forall|n: usize| n != child ==> t.contains(n) == self.contains(n)
                &&& forall|n: usize| n < self.nodes.len() ==> #[trigger] t.name_of(n) == self.name_of(n)
                &&& forall|n: usize|
                    n < self.nodes.len() ==> #[trigger] t.parent_of(n) == self.parent_of(n)
                &&& forall|n: usize|
                    n < self.nodes.len() && n != parent ==> #[trigger] t.children_of(n)
                        == self.children_of(n)
            }),
    {
    }

    /// A folder added under an existing one, with a valid name, leaves the
    /// tree well formed.
    pub proof fn lemma_with_child_wf(self, parent: usize, name: Seq<char>)
        requires
            self.wf(),
            self.contains(parent),
            valid_name(name),
            self.nodes.len() < usize::MAX,
        ensures
            self.with_child(parent, name).wf(),
    {
        let t = self.with_child(parent, name);
        let child = self.nodes.len() as usize;
        self.lemma_with_child(parent, name);
        assert forall|n: usize| t.contains(n) && n != Self::root() implies #[trigger] t.linked_up(n) by {
            if n == child {
                assert(t.children_of(parent).last() == child);
            } else {
                assert(self.linked_up(n));
                let p = self.parent_of(n).unwrap();
                let i = choose|i: int| 0 <= i < self.children_of(p).len() && self.children_of(p)[i] == n;
                assert(t.children_of(p)[i] == n);
            }
        }
        assert forall|p: usize, k: int|
            t.contains(p) && 0 <= k < t.children_of(p).len() implies #[trigger] t.linked_down(p, k) by {
            if p != child && !(p == parent && k == self.children_of(p).len()) {
                assert(self.linked_down(p, k));
            }
        }
        assert forall|p: usize| #[trigger] t.contains(p) implies t.children_of(p).no_duplicates() by {
            if p == parent {
                assert forall|i: int| 0 <= i < self.children_of(p).len() implies self.children_of(p)[i]
                    != child by {
                    assert(self.linked_down(p, i));
                }
            }
        }
    }

    /// Adding a folder changes the path of no folder that was there before.
    pub proof fn lemma_with_child_paths(self, parent: usize, name: Seq<char>, n: usize)
        requires
            self.wf(),
            self.contains(parent),
            self.nodes.len() < usize::MAX,
            n < self.nodes.len(),
        ensures
            self.with_child(parent, name).path_of(n) == self.path_of(n),
        decreases n,
    {
        self.lemma_with_child(parent, name);
        if self.parent_of(n) is Some && self.parent_of(n).unwrap() < n {
            self.lemma_with_child_paths(parent, name, self.parent_of(n).unwrap());
        }
    }

    /// The path of a new folder is the path of its parent, `\`, and its name.
    pub proof fn lemma_with_child_path(self, parent: usize, name: Seq<char>)
        requires
            self.wf(),
            self.contains(parent),
            self.nodes.len() < usize::MAX,
        ensures
            self.with_child(parent, name).path_of(self.nodes.len() as usize) == self.path_of(parent)
                + seq![RENDER_SEPARATOR] + name,
    {
        self.lemma_with_child(parent, name);
        self.lemma_with_child_paths(parent, name, parent);
    }

    /// What `without_child` leaves as it was, and what it takes away.
    pub proof fn lemma_without_child(self, parent: usize, k: int)
        requires
            self.wf(),
            self.contains(parent),
            0 <= k < self.children_of(parent).len(),
        ensures
            ({
                let t = self.without_child(parent, k);
                let child = self.children_of(parent)[k];
                &&& t.nodes.len() == self.nodes.len()
                &&& self.contains(child)
                &&& !t.contains(child)
                &&& child != parent
                &&& child != Self::root()
                &&& t.children_of(parent) == self.children_of(parent).remove(k)
                &&& forall|n: usize| n != child ==> t.contains(n) == self.contains(n)
                &&& forall|n: usize|
                    n < self.nodes.len() && n != child ==> #[trigger] t.name_of(n) == self.name_of(n)
                &&& forall|n: usize|
                    n < self.nodes.len() && n != child ==> #[trigger] t.parent_of(n)
                        == self.parent_of(n)
                &&& forall|n: usize|
                    n < self.nodes.len() && n != parent && n != child ==> #[trigger] t.children_of(n)
                        == self.children_of(n)
            }),
    {
        let child = self.children_of(parent)[k];
        assert(self.linked_down(parent, k));
        assert(self.linked_up(child));
    }

    /// Removing a child that has no children leaves the tree well formed.
    pub proof fn lemma_without_child_wf(self, parent: usize, k: int)
        requires
            self.wf(),
            self.contains(parent),
            0 <= k < self.children_of(parent).len(),
            self.children_of(self.children_of(parent)[k]).len() == 0,
        ensures
            self.without_child(parent, k).wf(),
    {
        let t = self.without_child(parent, k);
        self.lemma_without_child(parent, k);
        assert forall|n: usize| t.contains(n) && n != Self::root() implies #[trigger] t.linked_up(n) by {
            assert(self.linked_up(n));
            let p = self.parent_of(n).unwrap();
            let i = choose|i: int| 0 <= i < self.children_of(p).len() && self.children_of(p)[i] == n;
            if p == parent {
                // before the gap a child keeps its place, behind it the place is one less
                if i < k {
                    assert(t.children_of(p)[i] == n);
                } else {
                    assert(t.children_of(p)[i - 1] == n);
                }
            }
        }
        assert forall|p: usize, j: int|
            t.contains(p) && 0 <= j < t.children_of(p).len() implies #[trigger] t.linked_down(p, j) by {
            assert(self.linked_down(parent, k));
            if p == parent && j >= k {
                assert(self.linked_down(p, j + 1));
            } else {
                assert(self.linked_down(p, j));
            }
        }
    }

    /// Removing a folder without children changes the path of no folder that stays.
    pub proof fn lemma_without_child_paths(self, parent: usize, k: int, n: usize)
        requires
            self.wf(),
            self.contains(parent),
            0 <= k < self.children_of(parent).len(),
            self.children_of(self.children_of(parent)[k]).len() == 0,
            self.contains(n),
            n != self.children_of(parent)[k],
        ensures
            self.without_child(parent, k).path_of(n) == self.path_of(n),
        decreases n,
    {
        self.lemma_without_child(parent, k);
        if n != Self::root() {
            assert(self.linked_up(n));
            self.lemma_without_child_paths(parent, k, self.parent_of(n).unwrap());
        }
    }

    /// What `find_child` finds is a child of `p` called `name`, and the first
    /// of them; it finds nothing only where no child is called `name`.
    pub proof fn lemma_find_child(self, p: usize, name: Seq<char>)
        requires
            self.wf(),
            self.contains(p),
        ensures
            match self.find_child(p, name) {
                Some(c) => {
                    &&& self.contains(c)
                    &&& c != Self::root()
                    &&& self.parent_of(c) == Some(p)
                    &&& self.name_of(c) == name
                    &&& self.children_of(p).contains(c)
                },
                None => forall|k: int|
                    0 <= k < self.children_of(p).len() ==> self.name_of(
                        #[trigger] self.children_of(p)[k],
                    ) != name,
            },
    {
        let names = self.child_names(p);
        names.index_of_first_ensures(name);
        match names.index_of_first(name) {
            Some(k) => {
                assert(self.linked_down(p, k));
            },
            None => {
                assert forall|k: int| 0 <= k < self.children_of(p).len() implies self.name_of(
                    #[trigger] self.children_of(p)[k],
                ) != name by {
                    assert(names[k] == self.name_of(self.children_of(p)[k]));
                }
            },
        }
    }

    /// A step from a folder that exists ends at a folder that exists.
    pub proof fn lemma_step_contains(self, at: usize, segment: Seq<char>)
        requires
            self.wf(),
            self.contains(at),
        ensures
            self.step(at, segment) matches Ok(next) ==> self.contains(next),
    {
        if segment == parent_segment() {
            if at != Self::root() {
                assert(self.linked_up(at));
            }
        } else {
            self.lemma_find_child(at, segment);
        }
    }

    /// A walk from a folder that exists ends at a folder that exists.
    pub proof fn lemma_walk_contains(self, at: usize, segs: Seq<Seq<char>>)
        requires
            self.wf(),
            self.contains(at),
        ensures
            self.walk(at, segs) matches Ok(end) ==> self.contains(end),
        decreases segs.len(),
    {
        if segs.len() > 0 {
            self.lemma_step_contains(at, segs[0]);
            if let Ok(next) = self.step(at, segs[0]) {
                self.lemma_walk_contains(next, segs.drop_first());
            }
        }
    }

    /// A new tree is well formed.
    pub proof fn lemma_new_wf(name: Seq<char>)
        ensures
            Self::new(name).wf(),
            Self::new(name).path_of(Self::root()) == name,
    {
    }
}

/// A session: the tree and the folder the user stands in.
pub struct FolderModel {
    pub tree: TreeModel,
    pub current: usize,
}

impl FolderModel {
    /// The tree is well formed and the current folder exists.
    pub open spec fn wf(self) -> bool {
        self.tree.wf() && self.tree.contains(self.current)
    }

    /// A session on a new tree whose root is called `name`, standing at the root.
    pub open spec fn new(name: Seq<char>) -> FolderModel {
        FolderModel { tree: TreeModel::new(name), current: TreeModel::root() }
    }

    /// The path of the current folder.
    pub open spec fn path(self) -> Seq<char> {
        self.tree.path_of(self.current)
    }

    /// Creating a folder called `name` in the current folder, and moving
    /// into it: the session afterwards, and whether the folder was created.
    pub open spec fn create(self, name: Seq<char>) -> (FolderModel, Result<(), ErrorView>) {
        match self.tree.add(self.current, name) {
            (tree, Ok(child)) => (FolderModel { tree, current: child }, Ok(())),
            (_, Err(e)) => (self, Err(e)),
        }
    }

    /// Moving along `path`: the session afterwards, and whether it moved.
    pub open spec fn open(self, path: Seq<char>) -> (FolderModel, Result<(), ErrorView>) {
        match self.tree.open(self.current, path) {
            Ok(end) => (FolderModel { current: end, ..self }, Ok(())),
            Err(e) => (self, Err(e)),
        }
    }

    /// Removing the child called `name` of the current folder: the session
    /// afterwards, and whether the child was removed.
    pub open spec fn remove(self, name: Seq<char>) -> (FolderModel, Result<(), ErrorView>) {
        let (tree, result) = self.tree.remove(self.current, name);
        (FolderModel { tree, ..self }, result)
    }
}

} // verus!
