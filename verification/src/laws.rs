//! What holds of every session, proved from the model of the operations.

use vstd::prelude::*;
use crate::error::{invalid_name_text, not_empty_text, ErrorView};
use crate::model::{FolderModel, TreeModel};
use crate::path::{
    join, law_segments_of_join, lemma_segments_of_name, parent_segment, segments, valid_name,
    RENDER_SEPARATOR, SEGMENT_SEPARATOR,
};

verus! {

/// Creating a folder with a valid name succeeds and moves into it: the path
/// afterwards is the path before, `\`, and the name. (The tree must have room
/// for one more folder: its handles are machine integers.)
pub proof fn law_create_enters_new_folder(f: FolderModel, name: Seq<char>)
    requires
        f.wf(),
        valid_name(name),
        f.tree.nodes.len() < usize::MAX,
    ensures
        f.create(name).1 == Ok::<(), ErrorView>(()),
        f.create(name).0.wf(),
        f.create(name).0.path() == f.path() + seq![RENDER_SEPARATOR] + name,
{
    f.tree.lemma_with_child(f.current, name);
    f.tree.lemma_with_child_wf(f.current, name);
    f.tree.lemma_with_child_path(f.current, name);
}

/// Creating a folder whose name holds `/` or `\` fails with `InvalidName`,
/// and the session stays as it was.
pub proof fn law_create_refuses_separators(f: FolderModel, name: Seq<char>)
    requires
        name.contains(SEGMENT_SEPARATOR) || name.contains(RENDER_SEPARATOR),
    ensures
        f.create(name) == (f, Err::<(), ErrorView>(ErrorView::InvalidName(invalid_name_text()))),
{
}

/// Opening `..` at the root fails with `InvalidParent` and changes nothing;
/// anywhere else it succeeds and moves to the parent that the current folder
/// records.
pub proof fn law_open_parent(f: FolderModel)
    requires
        f.wf(),
    ensures
        f.current == TreeModel::root() ==> f.open(parent_segment()) == (
            f,
            Err::<(), ErrorView>(ErrorView::InvalidParent),
        ),
        f.current != TreeModel::root() ==> f.tree.parent_of(f.current) is Some && f.open(
            parent_segment(),
        ) == (
            FolderModel { current: f.tree.parent_of(f.current).unwrap(), ..f },
            Ok::<(), ErrorView>(()),
        ),
{
    lemma_walk_one(f.tree, f.current, parent_segment());
    if f.current != TreeModel::root() {
        assert(f.tree.linked_up(f.current));
    }
}

/// Opening a child of the current folder by its name and then `..` leads
/// back to the current folder. This holds of every child but one called
/// `..`, whose name as a path means the parent.
pub proof fn law_open_child_and_back(f: FolderModel, k: int)
    requires
        f.wf(),
        0 <= k < f.tree.children_of(f.current).len(),
        f.tree.name_of(f.tree.children_of(f.current)[k]) != parent_segment(),
    ensures
        ({
            let name = f.tree.name_of(f.tree.children_of(f.current)[k]);
            let (inside, entered) = f.open(name);
            &&& entered == Ok::<(), ErrorView>(())
            &&& inside.wf()
            &&& inside.open(parent_segment()) == (f, Ok::<(), ErrorView>(()))
        }),
{
    let child = f.tree.children_of(f.current)[k];
    let name = f.tree.name_of(child);
    assert(f.tree.linked_down(f.current, k));
    assert(f.tree.linked_up(child));
    lemma_walk_one(f.tree, f.current, name);
    f.tree.lemma_find_child(f.current, name);
    let inside = f.open(name).0;
    lemma_walk_one(f.tree, inside.current, parent_segment());
}

/// After the one child called `name` was removed, which had no children,
/// opening `name` fails with `InvalidPath`. This holds where no other child
/// has the same name, and of every name but `..`, which as a path means the
/// parent.
pub proof fn law_removed_child_cannot_be_opened(f: FolderModel, name: Seq<char>)
    requires
        f.wf(),
        f.tree.find_child(f.current, name) matches Some(child) && f.tree.children_of(child).len() == 0,
        forall|i: int, j: int|
            #![trigger f.tree.child_names(f.current)[i], f.tree.child_names(f.current)[j]]
            0 <= i < j < f.tree.child_names(f.current).len() ==> !(f.tree.child_names(f.current)[i]
                == name && f.tree.child_names(f.current)[j] == name),
        name != parent_segment(),
    ensures
        ({
            let (after, removed) = f.remove(name);
            &&& removed == Ok::<(), ErrorView>(())
            &&& after.wf()
            &&& after.open(name) == (after, Err::<(), ErrorView>(ErrorView::InvalidPath))
        }),
{
    let names = f.tree.child_names(f.current);
    names.index_of_first_ensures(name);
    let k = names.index_of_first(name).unwrap();
    let child = f.tree.children_of(f.current)[k];
    f.tree.lemma_without_child(f.current, k);
    f.tree.lemma_without_child_wf(f.current, k);
    let after = f.remove(name).0;
    assert(f.tree.linked_up(child));
    let left = after.tree.child_names(after.current);
    assert(!left.contains(name)) by {
        if left.contains(name) {
            // a child still called `name` was a second one of that name before
            let j = choose|j: int| 0 <= j < left.len() && left[j] == name;
            let from = if j < k { j } else { j + 1 };
            assert(f.tree.linked_down(f.current, from));
            assert(names[from] == name);
        }
    }
    left.index_of_first_ensures(name);
    lemma_walk_one(after.tree, after.current, name);
}

/// Removing a child that has children of its own fails with
/// `FolderNotEmpty`, and the session stays as it was.
pub proof fn law_remove_refuses_non_empty(f: FolderModel, name: Seq<char>)
    requires
        f.wf(),
        f.tree.find_child(f.current, name) matches Some(child) && f.tree.children_of(child).len() > 0,
    ensures
        f.remove(name) == (f, Err::<(), ErrorView>(ErrorView::FolderNotEmpty(not_empty_text(name)))),
{
}

/// Removing a child leaves the session where it stands, and the path of the
/// current folder as it was.
pub proof fn law_remove_keeps_position(f: FolderModel, name: Seq<char>)
    requires
        f.wf(),
    ensures
        f.remove(name).0.wf(),
        f.remove(name).0.current == f.current,
        f.remove(name).0.path() == f.path(),
{
    let names = f.tree.child_names(f.current);
    names.index_of_first_ensures(name);
    if let Some(k) = names.index_of_first(name) {
        if f.tree.children_of(f.tree.children_of(f.current)[k]).len() == 0 {
            f.tree.lemma_without_child(f.current, k);
            f.tree.lemma_without_child_wf(f.current, k);
            f.tree.lemma_without_child_paths(f.current, k, f.current);
        }
    }
}

/// An operation that fails leaves the session as it was.
pub proof fn law_failure_changes_nothing(f: FolderModel, text: Seq<char>)
    ensures
        f.create(text).1 is Err ==> f.create(text).0 == f,
        f.open(text).1 is Err ==> f.open(text).0 == f,
        f.remove(text).1 is Err ==> f.remove(text).0 == f,
{
}

/// Opening a path keeps the session well formed and changes nothing in the
/// tree.
pub proof fn law_open_keeps_tree(f: FolderModel, path: Seq<char>)
    requires
        f.wf(),
    ensures
        f.open(path).0.wf(),
        f.open(path).0.tree == f.tree,
{
    f.tree.lemma_walk_contains(f.current, segments(path));
}

/// The root is the one folder without a parent. Every other folder has a
/// parent that lists it among its children, and every child of a folder names
/// that folder as its parent.
pub proof fn law_links_agree(t: TreeModel, n: usize)
    requires
        t.wf(),
        t.contains(n),
    ensures
        t.parent_of(n) is None <==> n == TreeModel::root(),
        t.parent_of(n) matches Some(p) ==> t.contains(p) && t.children_of(p).contains(n),
        forall|k: int|
            0 <= k < t.children_of(n).len() ==> t.contains(#[trigger] t.children_of(n)[k])
                && t.parent_of(t.children_of(n)[k]) == Some(n),
        t.children_of(n).no_duplicates(),
        n != TreeModel::root() ==> valid_name(t.name_of(n)),
{
    if n != TreeModel::root() {
        assert(t.linked_up(n));
    }
    assert forall|k: int| 0 <= k < t.children_of(n).len() implies t.contains(
        #[trigger] t.children_of(n)[k],
    ) && t.parent_of(t.children_of(n)[k]) == Some(n) by {
        assert(t.linked_down(n, k));
    }
}

/// `levels` times the segment `..`.
pub open spec fn ups(levels: nat) -> Seq<Seq<char>> {
    Seq::new(levels, |i: int| parent_segment())
}

/// From a folder that stands `d` levels below the root, the path `../..`
/// with `d` segments leads to the root: no folder is its own ancestor, and
/// every folder hangs from the root.
pub proof fn law_climbing_reaches_root(f: FolderModel)
    requires
        f.wf(),
        f.current != TreeModel::root(),
    ensures
        f.tree.depth_of(f.current) >= 1,
        f.open(join(ups(f.tree.depth_of(f.current)))) == (
            FolderModel { current: TreeModel::root(), ..f },
            Ok::<(), ErrorView>(()),
        ),
{
    assert(f.tree.linked_up(f.current));
    law_segments_of_join(ups(f.tree.depth_of(f.current)));
    lemma_walk_up(f.tree, f.current);
}

/// Walking up as many steps as a folder is deep ends at the root.
proof fn lemma_walk_up(t: TreeModel, n: usize)
    requires
        t.wf(),
        t.contains(n),
    ensures
        t.walk(n, ups(t.depth_of(n))) == Ok::<usize, ErrorView>(TreeModel::root()),
    decreases n,
{
    if n != TreeModel::root() {
        assert(t.linked_up(n));
        let p = t.parent_of(n).unwrap();
        lemma_walk_up(t, p);
        assert(ups(t.depth_of(n)).drop_first() == ups(t.depth_of(p)));
    }
}

/// A path without `/` is walked in one step.
proof fn lemma_walk_one(tree: TreeModel, at: usize, name: Seq<char>)
    requires
        !name.contains(SEGMENT_SEPARATOR),
    ensures
        tree.contains(at) ==> tree.open(at, name) == tree.step(at, name),
{
    lemma_segments_of_name(name);
    let segs = seq![name];
    match tree.step(at, name) {
        Ok(next) => {
            assert(tree.walk(next, segs.drop_first()) == Ok::<usize, ErrorView>(next));
        },
        Err(e) => {},
    }
}

} // verus!
