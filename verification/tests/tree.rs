use extended_search::search_file::build_tree::{
    build_tree, get_tree, print_tree, tree_is_linked, FolderInformations,
};
use extended_search::search_file::{sort_files, SingleFileInformations};

fn files(paths: &[&str]) -> Vec<SingleFileInformations> {
    paths
        .iter()
        .map(|path| SingleFileInformations {
            path: path.to_string(),
            name: path.rsplit('/').next().unwrap().to_string(),
            size: 0,
            time: 0,
            hash: String::new(),
        })
        .collect()
}

fn folder(name: &str, father: Option<usize>, childs: Vec<usize>) -> FolderInformations {
    FolderInformations { foldname: name.to_string(), father, childs }
}

#[test]
fn tree_of_three_files_in_two_folders() {
    let tree = build_tree(&files(&["/a/1.txt", "/a/2.txt", "/b/3.txt"]));
    assert_eq!(
        tree,
        vec![
            folder("", None, vec![1, 4]),
            folder("a", Some(0), vec![2, 3]),
            folder("1.txt", Some(1), vec![]),
            folder("2.txt", Some(1), vec![]),
            folder("b", Some(0), vec![5]),
            folder("3.txt", Some(4), vec![]),
        ]
    );
}

#[test]
fn text_of_three_files_in_two_folders() {
    assert_eq!(
        get_tree(&files(&["/a/1.txt", "/a/2.txt", "/b/3.txt"])),
        "Tree structure:\na (2 child(s))\n ├──1.txt\n └──2.txt\nb (1 child(s))\n └──3.txt\n"
    );
}

#[test]
fn tree_of_nothing_is_the_root() {
    assert_eq!(build_tree(&Vec::new()), vec![folder("", None, vec![])]);
    assert_eq!(get_tree(&Vec::new()), "Tree structure:\n");
    assert_eq!(print_tree(&Vec::new()), "Tree structure:\n");
}

#[test]
fn text_draws_bars_below_folders_that_go_on() {
    assert_eq!(
        get_tree(&files(&["/a/x/1", "/a/x/2", "/a/y"])),
        "Tree structure:\na (2 child(s))\n ├──x (2 child(s))\n │   ├──1\n │   └──2\n └──y\n"
    );
}

#[test]
fn text_leaves_a_column_blank_once_it_has_ended() {
    let text = get_tree(&files(&["/a/b/c/1", "/a/d/2", "/e/f/g/3", "/e/h"]));
    assert_eq!(
        text,
        "Tree structure:\n\
         a (2 child(s))\n \
         ├──b (1 child(s))\n \
         │   └──c (1 child(s))\n \
         │       └──1\n \
         └──d (1 child(s))\n     \
         └──2\n\
         e (2 child(s))\n \
         ├──f (1 child(s))\n     \
         └──g (1 child(s))\n         \
         └──3\n \
         └──h\n"
    );
}

#[test]
fn tree_shares_the_folders_of_files_that_come_apart() {
    let tree = build_tree(&files(&["/a/1", "/b/2", "/a/3"]));
    assert_eq!(
        tree,
        vec![
            folder("", None, vec![1, 3]),
            folder("a", Some(0), vec![2, 5]),
            folder("1", Some(1), vec![]),
            folder("b", Some(0), vec![4]),
            folder("2", Some(3), vec![]),
            folder("3", Some(1), vec![]),
        ]
    );
}

#[test]
fn tree_holds_a_file_once_however_often_it_comes() {
    let tree = build_tree(&files(&["/a/1", "/a/1", "/a", "//a///1/"]));
    assert_eq!(
        tree,
        vec![folder("", None, vec![1]), folder("a", Some(0), vec![2]), folder("1", Some(1), vec![])]
    );
}

#[test]
fn tree_tells_names_apart_by_their_folder() {
    let tree = build_tree(&files(&["/a/x", "/b/x", "/x"]));
    assert_eq!(
        tree,
        vec![
            folder("", None, vec![1, 3, 5]),
            folder("a", Some(0), vec![2]),
            folder("x", Some(1), vec![]),
            folder("b", Some(0), vec![4]),
            folder("x", Some(3), vec![]),
            folder("x", Some(0), vec![]),
        ]
    );
}

#[test]
fn tree_of_a_file_deep_down() {
    let tree = build_tree(&files(&["/a/b/c/d"]));
    assert_eq!(
        tree,
        vec![
            folder("", None, vec![1]),
            folder("a", Some(0), vec![2]),
            folder("b", Some(1), vec![3]),
            folder("c", Some(2), vec![4]),
            folder("d", Some(3), vec![]),
        ]
    );
    assert_eq!(
        print_tree(&tree),
        "Tree structure:\na (1 child(s))\n └──b (1 child(s))\n     └──c (1 child(s))\n         └──d\n"
    );
}

#[test]
fn text_counts_children_in_decimal() {
    let paths: Vec<String> = (0..12).map(|n| format!("/dir/{:02}", n)).collect();
    let borrowed: Vec<&str> = paths.iter().map(|p| p.as_str()).collect();
    let text = get_tree(&files(&borrowed));
    assert!(text.starts_with("Tree structure:\ndir (12 child(s))\n ├──00\n ├──01\n"));
    assert!(text.ends_with(" ├──10\n └──11\n"));
    assert_eq!(text.lines().count(), 14);
}

#[test]
fn text_of_a_hand_made_tree() {
    let tree = vec![
        folder("", None, vec![1, 2]),
        folder("x", Some(0), vec![]),
        folder("y", Some(0), vec![3]),
        folder("z", Some(2), vec![]),
    ];
    assert_eq!(print_tree(&tree), "Tree structure:\nx\ny (1 child(s))\n └──z\n");
}

#[test]
fn sorted_collections_give_a_tree_in_reading_order() {
    let mut found = files(&["/b/3.txt", "/a/2.txt", "/a/sub/4.txt", "/a/1.txt"]);
    sort_files(&mut found, "path".to_string(), false);
    assert_eq!(
        get_tree(&found),
        "Tree structure:\na (3 child(s))\n ├──1.txt\n ├──2.txt\n └──sub (1 child(s))\n     └──4.txt\nb (1 child(s))\n └──3.txt\n"
    );
}

#[test]
fn linked_trees_are_told_from_others() {
    assert!(tree_is_linked(&Vec::new()));
    assert!(tree_is_linked(&vec![folder("", None, vec![])]));
    assert!(tree_is_linked(&vec![folder("", Some(5), vec![])]));
    assert!(tree_is_linked(&build_tree(&files(&["/a/1.txt", "/a/2.txt", "/b/3.txt"]))));
    assert!(!tree_is_linked(&vec![folder("", None, vec![]), folder("a", None, vec![])]));
    assert!(!tree_is_linked(&vec![folder("", None, vec![]), folder("a", Some(1), vec![])]));
    assert!(!tree_is_linked(&vec![
        folder("", None, vec![]),
        folder("a", Some(0), vec![]),
        folder("b", Some(3), vec![]),
        folder("c", Some(0), vec![]),
    ]));
}
