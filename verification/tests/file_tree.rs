use open_cad::file_tree::{FileTree, OpenAction};
use open_cad::node::DirEntry;

fn entry(name: &str, is_directory: bool) -> DirEntry {
    DirEntry { name: String::from(name), is_directory }
}

fn child_names(tree: &FileTree, id: u64) -> Vec<String> {
    let node = tree.get_node(id).unwrap();
    let mut names = Vec::new();
    for child in node.children.iter() {
        names.push(tree.get_node(*child).unwrap().name.clone());
    }
    names
}

#[test]
fn a_new_tree_holds_one_unloaded_root() {
    let tree = FileTree::new(String::from("/proj"));
    let root = tree.get_node(0).unwrap();
    assert_eq!(root.path, "/proj");
    assert_eq!(root.name, "proj");
    assert!(root.is_directory);
    assert!(!root.children_loaded);
    assert!(root.children.is_empty());
    assert!(tree.get_node(1).is_none());
}

#[test]
fn loading_allocates_child_ids_once() {
    let mut tree = FileTree::new(String::from("/proj"));
    tree.load_children(0, vec![entry("a", false), entry("b", false)]);
    let first: Vec<u64> = tree.get_node(0).unwrap().children.clone();
    assert_eq!(first, vec![1, 2]);
    // The second call is a no-op: same ids, same order, no new ids.
    tree.load_children(0, vec![entry("a", false), entry("b", false)]);
    let second: Vec<u64> = tree.get_node(0).unwrap().children.clone();
    assert_eq!(first, second);
    assert!(tree.get_node(3).is_none());
}

#[test]
fn loading_a_file_or_missing_id_changes_nothing() {
    let mut tree = FileTree::new(String::from("/proj"));
    tree.load_children(0, vec![entry("a", false)]);
    tree.load_children(1, vec![entry("x", false)]);
    assert!(tree.get_node(1).unwrap().children.is_empty());
    tree.load_children(99, vec![entry("x", false)]);
    assert!(tree.get_node(2).is_none());
}

#[test]
fn forced_refresh_leaves_no_old_child_id_behind() {
    let mut tree = FileTree::new(String::from("/proj"));
    tree.load_children(0, vec![entry("dir1", true), entry("keep.txt", false)]);
    // ids: 1 = dir1, 2 = keep.txt
    tree.load_children(1, vec![entry("inner.txt", false)]);
    // id 3 = inner.txt
    assert!(tree.get_node(3).is_some());
    // The directory's contents changed on disk; refresh by force.
    tree.load_children_force(0, vec![entry("dir1", true), entry("new.txt", false)]);
    // Every previously issued child id is gone; fresh ids were issued.
    assert!(tree.get_node(1).is_none());
    assert!(tree.get_node(2).is_none());
    assert!(tree.get_node(3).is_none());
    assert_eq!(tree.get_node(0).unwrap().children, vec![4, 5]);
    assert_eq!(child_names(&tree, 0), vec!["dir1", "new.txt"]);
}

#[test]
fn listing_is_directories_first_then_case_insensitive() {
    let mut tree = FileTree::new(String::from("/proj"));
    tree.load_children(
        0,
        vec![entry("b", false), entry("A", false), entry("dir2", true), entry("dir1", true)],
    );
    assert_eq!(child_names(&tree, 0), vec!["dir1", "dir2", "A", "b"]);
}

#[test]
fn ordering_compares_lowercased_names() {
    let mut tree = FileTree::new(String::from("/proj"));
    tree.load_children(0, vec![entry("B", false), entry("a", false)]);
    // Raw byte order would put "B" first; case-insensitive order puts "a" first.
    assert_eq!(child_names(&tree, 0), vec!["a", "B"]);
}

#[test]
fn hidden_entries_are_excluded() {
    let mut tree = FileTree::new(String::from("/proj"));
    tree.load_children(
        0,
        vec![entry(".git", true), entry(".hidden", false), entry("src", true)],
    );
    assert_eq!(child_names(&tree, 0), vec!["src"]);
}

#[test]
fn children_get_joined_paths() {
    let mut tree = FileTree::new(String::from("/proj"));
    tree.load_children(0, vec![entry("src", true)]);
    assert_eq!(tree.get_node(1).unwrap().path, "/proj/src");
}

#[test]
fn find_node_id_by_path_scans_all_nodes() {
    let mut tree = FileTree::new(String::from("/proj"));
    tree.load_children(0, vec![entry("a", true), entry("b", false)]);
    assert_eq!(tree.find_node_id_by_path(&String::from("/proj")), Some(0));
    assert_eq!(tree.find_node_id_by_path(&String::from("/proj/a")), Some(1));
    assert_eq!(tree.find_node_id_by_path(&String::from("/proj/b")), Some(2));
    assert_eq!(tree.find_node_id_by_path(&String::from("/elsewhere")), None);
}

#[test]
fn is_same_root_path_compares_the_root() {
    let tree = FileTree::new(String::from("/proj"));
    assert!(tree.is_same_root_path(&String::from("/proj")));
    assert!(!tree.is_same_root_path(&String::from("/other")));
}

#[test]
fn activating_a_drawing_file_requests_a_load() {
    let mut tree = FileTree::new(String::from("/proj"));
    assert_eq!(
        tree.handle_open(&String::from("/proj/part.dxf"), false),
        OpenAction::OpenDrawing
    );
    // Lowercasing decides, not the raw bytes.
    assert_eq!(
        tree.handle_open(&String::from("/proj/PART.DXF"), false),
        OpenAction::OpenDrawing
    );
    assert_eq!(tree.handle_open(&String::from("/proj/notes.txt"), false), OpenAction::Ignore);
    assert_eq!(tree.handle_open(&String::from("/proj/noext"), false), OpenAction::Ignore);
    // A dot-leading name has no extension, so it is not a drawing.
    assert_eq!(tree.handle_open(&String::from("/proj/.dxf"), false), OpenAction::Ignore);
}

#[test]
fn activating_a_directory_queues_its_refresh() {
    let mut tree = FileTree::new(String::from("/proj"));
    tree.load_children(0, vec![entry("sub", true)]);
    let act = tree.handle_open(&String::from("/proj/sub"), true);
    assert_eq!(act, OpenAction::Ignore);
    assert_eq!(tree.take_refresh_request(), Some(1));
    assert_eq!(tree.take_refresh_request(), None);
}

#[test]
fn request_refresh_for_unknown_path_keeps_the_queue() {
    let mut tree = FileTree::new(String::from("/proj"));
    tree.request_refresh(&String::from("/nowhere"));
    assert_eq!(tree.take_refresh_request(), None);
}

#[test]
fn file_icons_follow_the_lowercased_extension() {
    let tree = FileTree::new(String::from("/proj"));
    assert_eq!(tree.get_file_icon("part.dxf"), "\u{1F4D0}");
    assert_eq!(tree.get_file_icon("PART.DXF"), "\u{1F4D0}");
    assert_eq!(tree.get_file_icon("model.dwg"), "\u{1F4D0}");
    assert_eq!(tree.get_file_icon("main.rs"), "\u{1F980}");
    assert_eq!(tree.get_file_icon("Cargo.toml"), "\u{2699}\u{FE0F}");
    assert_eq!(tree.get_file_icon("data.json"), "\u{1F4CB}");
    assert_eq!(tree.get_file_icon("notes.txt"), "\u{1F4DD}");
    assert_eq!(tree.get_file_icon("README.md"), "\u{1F4D6}");
    assert_eq!(tree.get_file_icon("other.bin"), "\u{1F4C4}");
}
