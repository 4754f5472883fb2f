use doky::command::Command;
use doky::error::Error;
use doky::folder::{is_valid_name, Folder, FolderCursor};
use doky::Node;
use std::str::FromStr;

fn path_of(folder: &Folder) -> String {
    folder.get_path().unwrap()
}

/// Root `C:` with the children `first`, which has the child `sub_first`, and
/// `second`, made by the session itself; the session ends at the root.
fn session() -> Folder {
    let mut folder = Folder::new("C:".to_string());
    folder.create("first".to_string()).unwrap();
    folder.create("sub_first".to_string()).unwrap();
    folder.open("../..".to_string()).unwrap();
    folder.create("second".to_string()).unwrap();
    folder.open("..".to_string()).unwrap();
    folder
}

#[test]
fn new_session_stands_at_root() {
    let folder = Folder::new("C:".to_string());
    assert_eq!("C:", path_of(&folder));
    assert_eq!(folder.tree().root(), folder.current());
    assert_eq!(None, folder.tree().parent(folder.current()));
    assert!(folder.tree().children(folder.current()).is_empty());
}

#[test]
fn root_name_is_taken_as_it_is() {
    let folder = Folder::new("a/b\\c".to_string());
    assert_eq!("a/b\\c", path_of(&folder));
    let empty = Folder::new(String::new());
    assert_eq!("", path_of(&empty));
}

#[test]
fn create_moves_into_the_new_folder() {
    let mut folder = Folder::new("C:".to_string());
    for name in ["docs", "a b", "..", ".", "C:", "\u{e9}t\u{e9}"] {
        let before = path_of(&folder);
        assert_eq!(Ok(()), folder.create(name.to_string()));
        assert_eq!(format!("{}\\{}", before, name), path_of(&folder));
    }
    assert_eq!("C:\\docs\\a b\\..\\.\\C:\\\u{e9}t\u{e9}", path_of(&folder));
}

#[test]
fn create_refuses_separators_and_stays() {
    let mut folder = session();
    folder.open("first".to_string()).unwrap();
    for name in ["a/b", "a\\b", "/", "\\", "/a", "a\\", "a/b\\c"] {
        assert_eq!(
            Err(Error::InvalidName("Invalid folder name")),
            folder.create(name.to_string())
        );
        assert_eq!("C:\\first", path_of(&folder));
        assert_eq!(1, folder.tree().children(folder.current()).len());
    }
}

#[test]
fn create_refuses_the_empty_name() {
    let mut folder = Folder::new("C:".to_string());
    assert!(!is_valid_name(""));
    assert_eq!(
        Err(Error::InvalidName("Invalid folder name")),
        folder.create(String::new())
    );
    assert_eq!("C:", path_of(&folder));
    assert!(folder.tree().children(folder.current()).is_empty());
}

#[test]
fn create_allows_two_children_of_one_name() {
    let mut folder = Folder::new("C:".to_string());
    folder.create("twin".to_string()).unwrap();
    let older = folder.current();
    folder.open("..".to_string()).unwrap();
    folder.create("twin".to_string()).unwrap();
    let younger = folder.current();
    assert_ne!(older, younger);
    folder.open("..".to_string()).unwrap();
    assert_eq!(vec![older, younger], folder.tree().children(folder.current()));
    // the older one is the one that is found
    folder.open("twin".to_string()).unwrap();
    assert_eq!(older, folder.current());
}

#[test]
fn open_parent_at_root_fails_and_stays() {
    let mut folder = session();
    assert_eq!(Err(Error::InvalidParent), folder.open("..".to_string()));
    assert_eq!("C:", path_of(&folder));
}

#[test]
fn open_parent_returns_to_recorded_parent() {
    let mut folder = session();
    folder.open("first/sub_first".to_string()).unwrap();
    let here = folder.current();
    let parent = folder.tree().parent(here).unwrap();
    assert_eq!(Ok(()), folder.open("..".to_string()));
    assert_eq!(parent, folder.current());
    assert_eq!("C:\\first", path_of(&folder));
}

#[test]
fn open_child_then_parent_is_a_round_trip() {
    let mut folder = session();
    let start = folder.current();
    for name in ["first", "second"] {
        assert_eq!(Ok(()), folder.open(name.to_string()));
        assert_ne!(start, folder.current());
        assert_eq!(Ok(()), folder.open("..".to_string()));
        assert_eq!(start, folder.current());
        assert_eq!("C:", path_of(&folder));
    }
}

#[test]
fn a_child_called_dot_dot_cannot_be_entered_by_name() {
    let mut folder = Folder::new("C:".to_string());
    folder.create("home".to_string()).unwrap();
    folder.create("..".to_string()).unwrap();
    assert_eq!("C:\\home\\..", path_of(&folder));
    folder.open("..".to_string()).unwrap();
    assert_eq!("C:\\home", path_of(&folder));
    // as a path, `..` means the parent
    folder.open("..".to_string()).unwrap();
    assert_eq!("C:", path_of(&folder));
}

#[test]
fn scenario_two_levels_down_and_back() {
    let mut folder = Folder::new("C:".to_string());
    folder.create("first".to_string()).unwrap();
    assert_eq!("C:\\first", path_of(&folder));
    folder.create("sub_first".to_string()).unwrap();
    assert_eq!("C:\\first\\sub_first", path_of(&folder));
    let deep = folder.current();

    assert_eq!(Ok(()), folder.open("../..".to_string()));
    assert_eq!(folder.tree().root(), folder.current());
    assert_eq!("C:", path_of(&folder));

    let mut again = Folder::new("C:".to_string());
    again.create("first".to_string()).unwrap();
    again.create("sub_first".to_string()).unwrap();
    assert_eq!(deep, again.current());
    assert_eq!(Ok(()), again.open("..".to_string()));
    assert_eq!(Ok(()), again.open("..".to_string()));
    assert_eq!(again.tree().root(), again.current());
    assert_eq!("C:", path_of(&again));
}

#[test]
fn scenario_open_two_levels() {
    let mut folder = session();
    assert_eq!(Ok(()), folder.open("first/sub_first".to_string()));
    assert_eq!("C:\\first\\sub_first", path_of(&folder));
}

#[test]
fn scenario_remove_empty_and_non_empty() {
    let mut folder = session();
    assert_eq!(Ok(()), folder.remove("second".to_string(), Vec::new()));
    assert_eq!(
        Err(Error::FolderNotEmpty("Folder first is not empty".to_string())),
        folder.remove("first".to_string(), Vec::new())
    );
    assert_eq!("C:", path_of(&folder));
    let left = folder.tree().children(folder.current());
    assert_eq!(1, left.len());
    assert_eq!(Some("first".to_string()), folder.tree().name(left[0]));
}

#[test]
fn removed_child_cannot_be_opened() {
    let mut folder = session();
    let gone = folder.tree().find_child(folder.current(), "second").unwrap();
    assert_eq!(Ok(()), folder.remove("second".to_string(), Vec::new()));
    assert_eq!(Err(Error::InvalidPath), folder.open("second".to_string()));
    assert_eq!("C:", path_of(&folder));
    // its handle is dead
    assert!(!folder.tree().contains(gone));
    assert_eq!(None, folder.tree().name(gone));
    assert_eq!(Err(Error::InvalidParent), folder.tree().get_path(gone));
}

#[test]
fn remove_takes_the_older_of_two_twins() {
    let mut folder = Folder::new("C:".to_string());
    folder.create("twin".to_string()).unwrap();
    let older = folder.current();
    folder.open("..".to_string()).unwrap();
    folder.create("twin".to_string()).unwrap();
    let younger = folder.current();
    folder.open("..".to_string()).unwrap();

    assert_eq!(Ok(()), folder.remove("twin".to_string(), Vec::new()));
    assert!(!folder.tree().contains(older));
    assert_eq!(vec![younger], folder.tree().children(folder.current()));
    // the other twin is still there to be opened
    assert_eq!(Ok(()), folder.open("twin".to_string()));
    assert_eq!(younger, folder.current());
}

#[test]
fn remove_non_empty_leaves_tree_unchanged() {
    let mut folder = session();
    let before = format!("{:?}", folder);
    assert!(folder.remove("first".to_string(), Vec::new()).is_err());
    assert_eq!(before, format!("{:?}", folder));
    assert_eq!(Ok(()), folder.open("first/sub_first".to_string()));
}

#[test]
fn remove_does_not_reach_below_the_children() {
    let mut folder = session();
    assert_eq!(
        Err(Error::InvalidName("Folder not found")),
        folder.remove("sub_first".to_string(), Vec::new())
    );
    assert_eq!(
        Err(Error::InvalidName("Folder not found")),
        folder.remove("first/sub_first".to_string(), Vec::new())
    );
    assert_eq!(
        Err(Error::InvalidName("Folder not found")),
        folder.remove("..".to_string(), Vec::new())
    );
}

#[test]
fn remove_then_create_gives_a_new_handle() {
    let mut folder = session();
    let gone = folder.tree().find_child(folder.current(), "second").unwrap();
    folder.remove("second".to_string(), Vec::new()).unwrap();
    folder.create("second".to_string()).unwrap();
    assert_ne!(gone, folder.current());
    assert_eq!("C:\\second", path_of(&folder));
    assert!(!folder.tree().contains(gone));
}

#[test]
fn folder_emptied_can_be_removed() {
    let mut folder = session();
    folder.open("first".to_string()).unwrap();
    assert_eq!(Ok(()), folder.remove("sub_first".to_string(), Vec::new()));
    folder.open("..".to_string()).unwrap();
    assert_eq!(Ok(()), folder.remove("first".to_string(), Vec::new()));
    assert_eq!(1, folder.tree().children(folder.current()).len());
}

#[test]
fn open_is_all_or_nothing() {
    let mut folder = session();
    assert_eq!(
        Err(Error::InvalidPath),
        folder.open("first/sub_first/missing".to_string())
    );
    assert_eq!("C:", path_of(&folder));
    assert_eq!(
        Err(Error::InvalidParent),
        folder.open("first/../..".to_string())
    );
    assert_eq!("C:", path_of(&folder));
    // the first step that fails decides the error
    assert_eq!(
        Err(Error::InvalidPath),
        folder.open("missing/../../..".to_string())
    );
    assert_eq!(
        Err(Error::InvalidParent),
        folder.open("../missing".to_string())
    );
}

#[test]
fn open_empty_segments_match_nothing() {
    let mut folder = session();
    for path in ["", "/", "/first", "first/", "first//sub_first", "//"] {
        assert_eq!(Err(Error::InvalidPath), folder.open(path.to_string()));
        assert_eq!("C:", path_of(&folder));
    }
}

#[test]
fn open_mixes_down_and_up() {
    let mut folder = session();
    assert_eq!(
        Ok(()),
        folder.open("first/sub_first/../../second".to_string())
    );
    assert_eq!("C:\\second", path_of(&folder));
    assert_eq!(Ok(()), folder.open("../first/sub_first".to_string()));
    assert_eq!("C:\\first\\sub_first", path_of(&folder));
}

#[test]
fn open_is_case_sensitive_and_exact() {
    let mut folder = session();
    for path in ["First", "firs", "first ", " first", "first\\sub_first", "."] {
        assert_eq!(Err(Error::InvalidPath), folder.open(path.to_string()));
    }
}

#[test]
fn tree_handles_that_do_not_resolve() {
    let mut tree = FolderCursor::new("C:".to_string());
    let nowhere = 7;
    assert!(!tree.contains(nowhere));
    assert_eq!(Err(Error::InvalidParent), tree.add(nowhere, "a".to_string()));
    assert_eq!(Err(Error::InvalidParent), tree.get_path(nowhere));
    assert_eq!(Err(Error::InvalidParent), tree.open(nowhere, "a".to_string()));
    assert_eq!(
        Err(Error::InvalidParent),
        tree.remove(nowhere, "a".to_string(), Vec::new())
    );
    assert_eq!(None, tree.find_child(nowhere, "a"));
    assert_eq!(None, tree.name(nowhere));
    assert_eq!(None, tree.parent(nowhere));
    assert!(tree.children(nowhere).is_empty());
    // an invalid name is reported before the handle is looked at
    assert_eq!(
        Err(Error::InvalidName("Invalid folder name")),
        tree.add(nowhere, "a/b".to_string())
    );
    assert_eq!(1, format!("{:?}", tree).matches("live: true").count());
}

#[test]
fn tree_find_child_finds_direct_children_only() {
    let mut tree = FolderCursor::new("C:".to_string());
    let root = tree.root();
    let a = tree.add(root, "a".to_string()).unwrap();
    let b = tree.add(a, "b".to_string()).unwrap();
    assert_eq!(Some(a), tree.find_child(root, "a"));
    assert_eq!(None, tree.find_child(root, "b"));
    assert_eq!(Some(b), tree.find_child(a, "b"));
    assert_eq!(None, tree.find_child(b, "a"));
    assert_eq!(Ok(b), tree.open(root, "a/b".to_string()));
    assert_eq!(Ok(root), tree.open(b, "../..".to_string()));
    assert_eq!(Ok("C:\\a\\b".to_string()), tree.get_path(b));
    assert_eq!(Some(a), tree.parent(b));
}

#[test]
fn commands_drive_a_session() {
    let mut folder = Folder::new("C:".to_string());
    for line in ["mk first", "mk sub_first", "cd ../..", "mk second", "cd .."] {
        match Command::from_str(line).unwrap() {
            Command::Make(name) => folder.create(name).unwrap(),
            Command::Open(path) => folder.open(path).unwrap(),
            other => panic!("unexpected command {:?}", other),
        }
    }
    assert_eq!("C:", path_of(&folder));
    match Command::from_str("rm second -f").unwrap() {
        Command::Remove(name, flags) => assert_eq!(Ok(()), folder.remove(name, flags)),
        other => panic!("unexpected command {:?}", other),
    }
    assert_eq!(Err(Error::InvalidPath), folder.open("second".to_string()));
}

#[test]
fn climbing_as_many_levels_as_deep_reaches_root() {
    let mut folder = Folder::new("C:".to_string());
    let depth = 40;
    for level in 0..depth {
        folder.create(format!("level{}", level)).unwrap();
    }
    let path = vec![".."; depth].join("/");
    assert_eq!(Ok(()), folder.open(path));
    assert_eq!(folder.tree().root(), folder.current());
    assert_eq!("C:", path_of(&folder));
    // one level more leaves the tree, and the session stays
    folder.open("level0/level1".to_string()).unwrap();
    assert_eq!(Err(Error::InvalidParent), folder.open("../../..".to_string()));
    assert_eq!("C:\\level0\\level1", path_of(&folder));
}

#[test]
fn names_outside_ascii() {
    let mut folder = Folder::new("\u{4e3b}".to_string());
    folder.create("donn\u{e9}es".to_string()).unwrap();
    folder.create("\u{e9}t\u{e9} 2024".to_string()).unwrap();
    assert_eq!("\u{4e3b}\\donn\u{e9}es\\\u{e9}t\u{e9} 2024", path_of(&folder));
    folder.open("../..".to_string()).unwrap();
    assert_eq!(
        Ok(()),
        folder.open("donn\u{e9}es/\u{e9}t\u{e9} 2024".to_string())
    );
    assert_eq!(
        Err(Error::InvalidPath),
        folder.open("../\u{e9}t\u{e9} 2024/x".to_string())
    );
    folder.open("../..".to_string()).unwrap();
    assert_eq!(
        Err(Error::FolderNotEmpty(
            "Folder donn\u{e9}es is not empty".to_string()
        )),
        folder.remove("donn\u{e9}es".to_string(), Vec::new())
    );
}

#[test]
fn path_of_a_deep_folder() {
    let mut folder = Folder::new("C:".to_string());
    let depth = 5000;
    for _ in 0..depth {
        folder.create("d".to_string()).unwrap();
    }
    let path = path_of(&folder);
    assert_eq!(2 + 2 * depth, path.len());
    assert!(path.starts_with("C:\\d\\d"));
    assert_eq!(depth, path.matches('\\').count());
}
