//! The folder tree in memory, and the session that moves through it.

use vstd::prelude::*;
use crate::command::Argument;
use crate::error::{result_view, Error, ErrorView};
use crate::model::{FolderModel, NodeModel, TreeModel};
use crate::Node;
use crate::path::{
    parent_segment, segments, split_segments, texts, valid_name, RENDER_SEPARATOR,
    SEGMENT_SEPARATOR,
};

verus! {

/// Tells whether `name` can be the name of a folder: it is not empty and
/// holds neither `/` nor `\`.
pub fn is_valid_name(name: &str) -> (ok: bool)
    ensures
        ok == valid_name(name@),
{
    let mut empty: bool = true;
    let mut clean: bool = true;
    for c in it: name.chars()
        invariant
            it.seq() == name@,
            empty == (it.index() == 0),
            clean == forall|j: int|
                0 <= j < it.index() ==> name@[j] != SEGMENT_SEPARATOR && name@[j] != RENDER_SEPARATOR,
    {
        empty = false;
        if c == SEGMENT_SEPARATOR || c == RENDER_SEPARATOR {
            clean = false;
        }
    }
    !empty && clean
}

/// One slot of the arena: a folder, or the place where one was.
#[derive(Debug)]
struct Entry {
    name: String,
    parent: Option<usize>,
    childs: Vec<usize>,
    live: bool,
}

impl View for Entry {
    type V = NodeModel;

    closed spec fn view(&self) -> NodeModel {
        NodeModel { name: self.name@, parent: self.parent, children: self.childs@, live: self.live }
    }
}

/// The folder tree. Folders are addressed by handles, plain indices that stay
/// the same for as long as the tree lives; the handle of the root is
/// [`FolderCursor::root`].
#[derive(Debug)]
pub struct FolderCursor {
    nodes: Vec<Entry>,
}

impl View for FolderCursor {
    type V = TreeModel;

    closed spec fn view(&self) -> TreeModel {
        TreeModel { nodes: self.nodes@.map_values(|e: Entry| e@) }
    }
}

impl FolderCursor {
    /// The tree is rooted, and its parent and child links agree.
    pub open spec fn wf(&self) -> bool {
        self@.wf()
    }

    /// A tree that holds one folder, the root, called `name`. The name of the
    /// root is taken as it is.
    pub fn new(name: String) -> (tree: FolderCursor)
        ensures
            tree.wf(),
            tree@ == TreeModel::new(name@),
    {
        let mut nodes: Vec<Entry> = Vec::new();
        nodes.push(Entry { name, parent: None, childs: Vec::new(), live: true });
        let tree = FolderCursor { nodes };
        proof {
            assert(tree@.nodes =~= TreeModel::new(name@).nodes);
            TreeModel::lemma_new_wf(name@);
        }
        tree
    }

    /// The handle of the root.
    pub fn root(&self) -> (root: usize)
        ensures
            root == TreeModel::root(),
    {
        0
    }

    /// Tells whether `node` is the handle of a folder of this tree.
    pub fn contains(&self, node: usize) -> (found: bool)
        ensures
            found == self@.contains(node),
    {
        node < self.nodes.len() && self.nodes[node].live
    }

    /// The name of `node`; `None` where `node` is no folder of this tree.
    pub fn name(&self, node: usize) -> (r: Option<String>)
        ensures
            match r {
                Some(name) => self@.contains(node) && name@ == self@.name_of(node),
                None => !self@.contains(node),
            },
    {
        if self.contains(node) {
            Some(self.nodes[node].name.clone())
        } else {
            None
        }
    }

    /// The parent of `node`; `None` for the root, and where `node` is no
    /// folder of this tree.
    pub fn parent(&self, node: usize) -> (r: Option<usize>)
        ensures
            r == if self@.contains(node) {
                self@.parent_of(node)
            } else {
                None
            },
    {
        if self.contains(node) {
            self.nodes[node].parent
        } else {
            None
        }
    }

    /// The children of `node`, oldest first; none where `node` is no folder
    /// of this tree.
    pub fn children(&self, node: usize) -> (r: Vec<usize>)
        ensures
            r@ == if self@.contains(node) {
                self@.children_of(node)
            } else {
                Seq::empty()
            },
    {
        if self.contains(node) {
            self.nodes[node].childs.clone()
        } else {
            Vec::new()
        }
    }

    /// Creates a folder called `name` as the last child of `parent` and
    /// returns its handle. A name that `is_valid_name` refuses gives
    /// `InvalidName`, a `parent` that is no folder of this tree
    /// `InvalidParent`; the tree is then left as it was. Two children of one
    /// folder may have the same name.
    pub fn add(&mut self, parent: usize, name: String) -> (r: Result<usize, Error>)
        requires
            old(self).wf(),
        ensures
            final(self).wf(),
            old(self)@.add(parent, name@) == (final(self)@, result_view(r)),
    {
        if !is_valid_name(name.as_str()) {
            return Err(Error::invalid_name());
        }
        if !self.contains(parent) {
            return Err(Error::InvalidParent);
        }
        let child: usize = self.nodes.len();
        self.nodes.push(Entry { name, parent: Some(parent), childs: Vec::new(), live: true });
        self.nodes[parent].childs.push(child);
        proof {
            assert(self.nodes.len() == self.nodes@.len());
            assert(self@.nodes =~= old(self)@.with_child(parent, name@).nodes);
            old(self)@.lemma_with_child_wf(parent, name@);
        }
        Ok(child)
    }

    /// The place, among the children of `parent`, of the first one called `name`.
    fn position(&self, parent: usize, name: &String) -> (r: Option<usize>)
        requires
            self.wf(),
            self@.contains(parent),
        ensures
            match r {
                Some(k) => k < self@.children_of(parent).len() && self@.child_names(
                    parent,
                ).index_of_first(name@) == Some(k as int),
                None => self@.child_names(parent).index_of_first(name@) is None,
            },
    {
        let ghost names = self@.child_names(parent);
        let count: usize = self.nodes[parent].childs.len();
        let mut k: usize = 0;
        while k < count
            invariant
                self.wf(),
                self@.contains(parent),
                names == self@.child_names(parent),
                count == names.len(),
                k <= count,
                forall|j: int| 0 <= j < k ==> names[j] != name@,
            decreases count - k,
        {
            let child: usize = self.nodes[parent].childs[k];
            proof {
                assert(self@.linked_down(parent, k as int));
                assert(names[k as int] == self@.name_of(child));
            }
            if self.nodes[child].name == *name {
                proof {
                    names.index_of_first_ensures(name@);
                }
                return Some(k);
            }
            k += 1;
        }
        proof {
            names.index_of_first_ensures(name@);
        }
        None
    }

    /// The first child of `parent` that is called `name`; `None` where it has
    /// no such child or `parent` is no folder of this tree.
    pub fn find_child(&self, parent: usize, name: &str) -> (r: Option<usize>)
        requires
            self.wf(),
        ensures
            r == if self@.contains(parent) {
                self@.find_child(parent, name@)
            } else {
                None
            },
    {
        if !self.contains(parent) {
            return None;
        }
        let wanted: String = name.to_owned();
        match self.position(parent, &wanted) {
            Some(k) => Some(self.nodes[parent].childs[k]),
            None => None,
        }
    }

    /// The path of `node`: the names from the root down to it, joined by `\`.
    /// A `node` that is no folder of this tree gives `InvalidParent`.
    pub fn get_path(&self, node: usize) -> (r: Result<String, Error>)
        requires
            self.wf(),
        ensures
            match r {
                Ok(path) => self@.contains(node) && path@ == self@.path_of(node),
                Err(e) => !self@.contains(node) && e@ == ErrorView::InvalidParent,
            },
    {
        if !self.contains(node) {
            return Err(Error::InvalidParent);
        }
        // the folders from `node` up to the root
        let mut chain: Vec<usize> = Vec::new();
        chain.push(node);
        let mut at: usize = node;
        let mut above: Option<usize> = self.nodes[node].parent;
        while above.is_some()
            invariant
                self.wf(),
                self@.contains(at),
                above == self@.parent_of(at),
                chain@.len() >= 1,
                chain@[0] == node,
                chain@.last() == at,
                forall|j: int| 0 <= j < chain@.len() ==> self@.contains(#[trigger] chain@[j]),
                forall|j: int|
                    0 <= j < chain@.len() - 1 ==> self@.parent_of(#[trigger] chain@[j]) == Some(
                        chain@[j + 1],
                    ),
            decreases at,
        {
            proof {
                assert(self@.linked_up(at));
            }
            at = above.unwrap();
            chain.push(at);
            above = self.nodes[at].parent;
        }
        // the names from the root down to `node`
        let mut path: String = self.nodes[at].name.clone();
        let mut i: usize = chain.len() - 1;
        while i > 0
            invariant
                self.wf(),
                i < chain@.len(),
                chain@[0] == node,
                path@ == self@.path_of(chain@[i as int]),
                forall|j: int| 0 <= j < chain@.len() ==> self@.contains(#[trigger] chain@[j]),
                forall|j: int|
                    0 <= j < chain@.len() - 1 ==> self@.parent_of(#[trigger] chain@[j]) == Some(
                        chain@[j + 1],
                    ),
            decreases i,
        {
            i -= 1;
            let below: usize = chain[i];
            proof {
                reveal_strlit("\\");
                assert(self@.contains(below));
                assert(self@.linked_up(below));
            }
            path.append("\\");
            path.append(self.nodes[below].name.as_str());
        }
        Ok(path)
    }

    /// The folder that `path` leads to from `current`. The path is cut at
    /// every `/` and its segments are followed from left to right: `..` leads
    /// to the parent and fails with `InvalidParent` at the root, any other
    /// segment leads to the first child of that name and fails with
    /// `InvalidPath` where there is none. A `current` that is no folder of
    /// this tree gives `InvalidParent`.
    pub fn open(&self, current: usize, path: String) -> (r: Result<usize, Error>)
        requires
            self.wf(),
        ensures
            self@.open(current, path@) == result_view(r),
    {
        if !self.contains(current) {
            return Err(Error::InvalidParent);
        }
        let parts: Vec<String> = split_segments(path.as_str());
        let up: String = String::from_str("..");
        proof {
            reveal_strlit("..");
        }
        let ghost all = segments(path@);
        let mut cursor: usize = current;
        let mut i: usize = 0;
        assert(all.skip(0) == all);
        while i < parts.len()
            invariant
                self.wf(),
                self@.contains(current),
                self@.contains(cursor),
                up@ == parent_segment(),
                all == segments(path@),
                texts(parts@) == all,
                i <= parts.len(),
                self@.walk(current, all) == self@.walk(cursor, all.skip(i as int)),
            decreases parts.len() - i,
        {
            let ghost rest = all.skip(i as int);
            proof {
                assert(rest.drop_first() == all.skip(i + 1));
                self@.lemma_step_contains(cursor, rest[0]);
            }
            if parts[i] == up {
                match self.nodes[cursor].parent {
                    Some(parent) => {
                        cursor = parent;
                    },
                    None => {
                        return Err(Error::InvalidParent);
                    },
                }
            } else {
                match self.find_child(cursor, parts[i].as_str()) {
                    Some(child) => {
                        cursor = child;
                    },
                    None => {
                        return Err(Error::InvalidPath);
                    },
                }
            }
            i += 1;
        }
        Ok(cursor)
    }

    /// Removes the first child of `current` that is called `name`. Where no
    /// child has that name the result is `InvalidName`, where the child has
    /// children of its own `FolderNotEmpty`, and where `current` is no folder
    /// of this tree `InvalidParent`; the tree is then left as it was. The
    /// flags change nothing.
    #[allow(unused_variables)]
    pub fn remove(&mut self, current: usize, name: String, arguments: Vec<Argument>) -> (r: Result<
        (),
        Error,
    >)
        requires
            old(self).wf(),
        ensures
            final(self).wf(),
            old(self)@.remove(current, name@) == (final(self)@, result_view(r)),
    {
        if !self.contains(current) {
            return Err(Error::InvalidParent);
        }
        match self.position(current, &name) {
            None => Err(Error::not_found()),
            Some(k) => {
                let child: usize = self.nodes[current].childs[k];
                proof {
                    assert(self@.linked_down(current, k as int));
                }
                if self.nodes[child].childs.len() != 0 {
                    return Err(Error::folder_not_empty(name.as_str()));
                }
                self.nodes[current].childs.remove(k);
                self.nodes[child] = Entry { name: String::new(), parent: None, childs: Vec::new(), live: false };
                proof {
                    assert(self@.nodes =~= old(self)@.without_child(current, k as int).nodes);
                    old(self)@.lemma_without_child_wf(current, k as int);
                }
                Ok(())
            },
        }
    }
}

/// A session: a folder tree and the folder the user stands in.
#[derive(Debug)]
pub struct Folder {
    tree: FolderCursor,
    item: usize,
}

impl View for Folder {
    type V = FolderModel;

    closed spec fn view(&self) -> FolderModel {
        FolderModel { tree: self.tree@, current: self.item }
    }
}

impl Folder {
    /// The tree is well formed and the current folder is one of its folders.
    pub open spec fn wf(&self) -> bool {
        self@.wf()
    }

    /// A session on a new tree whose root is called `name`, standing at the root.
    pub fn new(name: String) -> (folder: Folder)
        ensures
            folder.wf(),
            folder@ == FolderModel::new(name@),
    {
        let tree = FolderCursor::new(name);
        let item: usize = tree.root();
        Folder { tree, item }
    }

    /// A session on `tree`, standing at its root.
    pub fn at_root(tree: FolderCursor) -> (folder: Folder)
        requires
            tree.wf(),
        ensures
            folder.wf(),
            folder@ == (FolderModel { tree: tree@, current: TreeModel::root() }),
    {
        let item: usize = tree.root();
        Folder { tree, item }
    }

    /// The tree of this session.
    pub fn tree(&self) -> (tree: &FolderCursor)
        ensures
            tree@ == self@.tree,
    {
        &self.tree
    }

    /// The handle of the current folder.
    pub fn current(&self) -> (item: usize)
        ensures
            item == self@.current,
    {
        self.item
    }

    /// Creates a folder called `name` in the current folder and moves into
    /// it. A name that `is_valid_name` refuses gives `InvalidName`, and the
    /// session stays as it was.
    pub fn create(&mut self, name: String) -> (r: Result<(), Error>)
        requires
            old(self).wf(),
        ensures
            final(self).wf(),
            old(self)@.create(name@) == (final(self)@, result_view(r)),
    {
        match self.tree.add(self.item, name) {
            Ok(child) => {
                self.item = child;
                Ok(())
            },
            Err(e) => Err(e),
        }
    }

    /// The path of the current folder: the names from the root down to it,
    /// joined by `\`.
    pub fn get_path(&self) -> (r: Result<String, Error>)
        requires
            self.wf(),
        ensures
            r matches Ok(path) && path@ == self@.path(),
    {
        self.tree.get_path(self.item)
    }
}

impl Node for Folder {
    /// Moves along `path`, which is cut at every `/`: `..` leads to the
    /// parent, any other segment to the first child of that name. Where a step
    /// fails the session stays where it was.
    fn open(&mut self, path: String) -> (r: Result<(), Error>) {
        match self.tree.open(self.item, path) {
            Ok(end) => {
                proof {
                    self.tree@.lemma_walk_contains(self.item, segments(path@));
                }
                self.item = end;
                Ok(())
            },
            Err(e) => Err(e),
        }
    }

    /// Removes the first child of the current folder that is called `name`,
    /// unless it has children of its own. The flags change nothing.
    fn remove(&mut self, name: String, arguments: Vec<Argument>) -> (r: Result<(), Error>) {
        proof {
            let k = self@.tree.child_names(self.item).index_of_first(name@);
            if k is Some {
                self@.tree.child_names(self.item).index_of_first_ensures(name@);
                self@.tree.lemma_without_child(self.item, k.unwrap());
            }
        }
        self.tree.remove(self.item, name, arguments)
    }
}

} // verus!
