use lumina::{FileTree, FolderEntry, ListedEntry, LoadError, IoErrorKind, Workspace};

fn entry(depth: usize, path: &str, is_folder: bool) -> ListedEntry {
    ListedEntry { depth, path: path.to_string(), is_folder }
}

fn sample_listing() -> Vec<ListedEntry> {
    vec![
        entry(0, "root/a.txt", false),
        entry(0, "root/b.txt", false),
        entry(0, "root/sub", true),
        entry(1, "root/sub/c.txt", false),
    ]
}

fn two_folders() -> FileTree {
    FileTree::build(&vec![
        entry(0, "r/x", true),
        entry(1, "r/x/inner", true),
        entry(2, "r/x/inner/deep.txt", false),
        entry(1, "r/x/one.txt", false),
        entry(0, "r/y", true),
        entry(1, "r/y/two.txt", false),
        entry(0, "r/z.txt", false),
    ])
    .unwrap()
}

fn flags(t: &FileTree) -> Vec<bool> {
    vec![
        t.entries[0].open,
        t.entries[0].children[0].open,
        t.entries[1].open,
    ]
}

#[test]
fn new_entry_is_collapsed_and_empty() {
    let e = FolderEntry::new("p/q".to_string(), true);
    assert_eq!(e.path, "p/q");
    assert!(e.is_folder);
    assert!(!e.open);
    assert!(e.children.is_empty());
}

#[test]
fn build_sample_directory() {
    let t = FileTree::build(&sample_listing()).unwrap();
    assert_eq!(t.entries.len(), 3);
    let files: Vec<&FolderEntry> = t.entries.iter().filter(|e| !e.is_folder).collect();
    assert_eq!(files.len(), 2);
    assert_eq!(t.entries[0].path, "root/a.txt");
    assert_eq!(t.entries[1].path, "root/b.txt");
    let sub = &t.entries[2];
    assert!(sub.is_folder);
    assert_eq!(sub.path, "root/sub");
    assert_eq!(sub.children.len(), 1);
    assert_eq!(sub.children[0].path, "root/sub/c.txt");
    assert!(!sub.children[0].is_folder);
    assert!(sub.children[0].children.is_empty());
    assert!(t.entries.iter().all(|e| !e.open));
}

#[test]
fn build_empty_listing() {
    let t = FileTree::build(&Vec::new()).unwrap();
    assert!(t.entries.is_empty());
    assert!(t.traverse().is_empty());
}

#[test]
fn build_rejects_listing_not_starting_at_top() {
    assert!(FileTree::build(&vec![entry(1, "a", false)]).is_none());
}

#[test]
fn build_rejects_children_under_a_file() {
    assert!(FileTree::build(&vec![entry(0, "a", false), entry(1, "a/b", false)]).is_none());
}

#[test]
fn build_rejects_skipped_level() {
    assert!(FileTree::build(&vec![entry(0, "a", true), entry(2, "a/b/c", false)]).is_none());
}

#[test]
fn build_keeps_listing_order() {
    let t = FileTree::build(&vec![
        entry(0, "z", false),
        entry(0, "a", false),
        entry(0, "m", false),
    ])
    .unwrap();
    let paths: Vec<&str> = t.entries.iter().map(|e| e.path.as_str()).collect();
    assert_eq!(paths, vec!["z", "a", "m"]);
}

#[test]
fn toggle_flips_only_that_folder() {
    let mut t = two_folders();
    t.toggle(&vec![0]);
    assert_eq!(flags(&t), vec![true, false, false]);
    t.toggle(&vec![0, 0]);
    assert_eq!(flags(&t), vec![true, true, false]);
    t.toggle(&vec![0]);
    assert_eq!(flags(&t), vec![false, true, false]);
    assert_eq!(t.entries[0].children.len(), 2);
    assert_eq!(t.entries[0].children[0].children[0].path, "r/x/inner/deep.txt");
}

#[test]
fn toggle_on_file_or_missing_entry_changes_nothing() {
    let mut t = two_folders();
    t.toggle(&vec![2]);
    t.toggle(&vec![0, 1]);
    t.toggle(&vec![7]);
    t.toggle(&vec![]);
    assert_eq!(flags(&t), vec![false, false, false]);
    assert!(!t.entries[2].open);
}

#[test]
fn traverse_collapsed_gives_top_level() {
    let t = two_folders();
    let rows = t.traverse();
    let got: Vec<(&str, usize)> = rows.iter().map(|r| (r.path.as_str(), r.depth)).collect();
    assert_eq!(got, vec![("r/x", 0), ("r/y", 0), ("r/z.txt", 0)]);
    assert_eq!(rows[1].address, vec![1]);
}

#[test]
fn traverse_after_expanding_one_folder() {
    let mut t = two_folders();
    t.toggle(&vec![1]);
    let rows = t.traverse();
    let got: Vec<(&str, usize)> = rows.iter().map(|r| (r.path.as_str(), r.depth)).collect();
    assert_eq!(got, vec![("r/x", 0), ("r/y", 0), ("r/y/two.txt", 1), ("r/z.txt", 0)]);
    assert_eq!(rows[2].address, vec![1, 0]);
    assert!(rows[1].open);
    assert!(!rows[0].open);
}

#[test]
fn traverse_nested_expansion() {
    let mut t = two_folders();
    t.toggle(&vec![0, 0]);
    let collapsed: Vec<String> = t.traverse().into_iter().map(|r| r.path).collect();
    assert_eq!(collapsed, vec!["r/x", "r/y", "r/z.txt"]);
    t.toggle(&vec![0]);
    let rows = t.traverse();
    let got: Vec<(&str, usize)> = rows.iter().map(|r| (r.path.as_str(), r.depth)).collect();
    assert_eq!(
        got,
        vec![
            ("r/x", 0),
            ("r/x/inner", 1),
            ("r/x/inner/deep.txt", 2),
            ("r/x/one.txt", 1),
            ("r/y", 0),
            ("r/z.txt", 0),
        ]
    );
    assert_eq!(rows[2].address, vec![0, 0, 0]);
}

#[test]
fn entry_at_follows_address() {
    let t = two_folders();
    assert_eq!(t.entry_at(&vec![0, 1]).unwrap().path, "r/x/one.txt");
    assert!(t.entry_at(&vec![0, 5]).is_none());
    assert!(t.entry_at(&vec![]).is_none());
    assert!(t.entry_at(&vec![2, 0]).is_none());
}

#[test]
fn load_folder_replaces_tree() {
    let mut w = Workspace::new();
    assert!(w.load_folder(Ok(sample_listing())).is_ok());
    assert_eq!(w.current_folder, None);
    assert_eq!(w.tree.entries.len(), 3);
    w.select(&vec![2]);
    w.current_folder = Some("root".to_string());
    assert!(w.load_folder(Ok(vec![entry(0, "other/q", false)])).is_ok());
    assert_eq!(w.current_folder.as_deref(), Some("root"));
    assert_eq!(w.tree.entries.len(), 1);
    assert_eq!(w.tree.entries[0].path, "other/q");
}

#[test]
fn load_folder_failure_keeps_tree() {
    let mut w = Workspace::new();
    w.load_folder(Ok(sample_listing())).unwrap();
    w.current_folder = Some("root".to_string());
    let r = w.load_folder(Err(IoErrorKind::PermissionDenied));
    assert_eq!(r, Err(LoadError::Io(IoErrorKind::PermissionDenied)));
    assert_eq!(w.current_folder.as_deref(), Some("root"));
    assert_eq!(w.tree.entries.len(), 3);
    let r = w.load_folder(Ok(vec![entry(3, "bad/x", false)]));
    assert_eq!(r, Err(LoadError::MalformedListing));
    assert_eq!(w.current_folder.as_deref(), Some("root"));
    assert_eq!(w.tree.entries[2].path, "root/sub");
}

#[test]
fn select_folder_toggles_and_file_names_path() {
    let mut w = Workspace::new();
    w.load_folder(Ok(sample_listing())).unwrap();
    assert_eq!(w.select(&vec![2]), None);
    assert!(w.tree.entries[2].open);
    assert_eq!(w.select(&vec![2, 0]), Some("root/sub/c.txt".to_string()));
    assert_eq!(w.select(&vec![0]), Some("root/a.txt".to_string()));
    assert_eq!(w.select(&vec![9]), None);
    assert!(w.tree.entries[2].open);
    assert_eq!(w.select(&vec![2]), None);
    assert!(!w.tree.entries[2].open);
}
