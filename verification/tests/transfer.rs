use extended_search::helper::SearchHelper;
use extended_search::search_file::transfer::{summarize, BatchOutcome, FileAction};
use extended_search::search_file::{
    copy_files, delete_files, mapping_files, move_files, SingleFileInformations,
};

fn record(path: &str, name: &str) -> SingleFileInformations {
    SingleFileInformations {
        path: path.to_string(),
        name: name.to_string(),
        size: 1,
        time: 2,
        hash: String::new(),
    }
}

fn copy_into(from: &str, folder: &str, to: &str) -> FileAction {
    FileAction::CopyInto { from: from.to_string(), folder: folder.to_string(), to: to.to_string() }
}

#[test]
fn copy_puts_each_file_under_its_name_into_the_destination() {
    let files = vec![record("/a/x/y.txt", "y.txt"), record("/c/z.txt", "z.txt")];
    assert_eq!(
        copy_files(&files, "/out"),
        vec![
            FileAction::Copy { from: "/a/x/y.txt".to_string(), to: "/out/y.txt".to_string() },
            FileAction::Copy { from: "/c/z.txt".to_string(), to: "/out/z.txt".to_string() },
        ]
    );
}

#[test]
fn copy_adds_no_second_separator() {
    let files = vec![record("/a/y.txt", "y.txt")];
    assert_eq!(
        copy_files(&files, "/out/"),
        vec![FileAction::Copy { from: "/a/y.txt".to_string(), to: "/out/y.txt".to_string() }]
    );
    assert_eq!(
        copy_files(&files, "/"),
        vec![FileAction::Copy { from: "/a/y.txt".to_string(), to: "/y.txt".to_string() }]
    );
    assert_eq!(
        copy_files(&files, ""),
        vec![FileAction::Copy { from: "/a/y.txt".to_string(), to: "y.txt".to_string() }]
    );
}

#[test]
fn copy_of_files_with_one_name_aims_at_one_target() {
    let files = vec![record("/a/n", "n"), record("/b/n", "n")];
    let plan = copy_files(&files, "/out");
    assert_eq!(plan.len(), 2);
    assert_eq!(plan[0], FileAction::Copy { from: "/a/n".to_string(), to: "/out/n".to_string() });
    assert_eq!(plan[1], FileAction::Copy { from: "/b/n".to_string(), to: "/out/n".to_string() });
}

#[test]
fn move_puts_each_file_under_its_name_into_the_destination() {
    let files = vec![record("/a/x/y.txt", "y.txt"), record("/c/z.txt", "z.txt")];
    assert_eq!(
        move_files(&files, "/out"),
        vec![
            FileAction::Move { from: "/a/x/y.txt".to_string(), to: "/out/y.txt".to_string() },
            FileAction::Move { from: "/c/z.txt".to_string(), to: "/out/z.txt".to_string() },
        ]
    );
}

#[test]
fn delete_sends_each_file_to_the_trash() {
    let files = vec![record("/a/x/y.txt", "y.txt"), record("/c/z.txt", "z.txt")];
    assert_eq!(
        delete_files(&files),
        vec![
            FileAction::Trash { path: "/a/x/y.txt".to_string() },
            FileAction::Trash { path: "/c/z.txt".to_string() },
        ]
    );
}

#[test]
fn plans_of_nothing_are_empty() {
    let none: Vec<SingleFileInformations> = Vec::new();
    assert!(copy_files(&none, "/out").is_empty());
    assert!(move_files(&none, "/out").is_empty());
    assert!(delete_files(&none).is_empty());
    assert!(mapping_files(&none, "/a", "/b").is_empty());
}

#[test]
fn remap_keeps_the_folders_and_skips_files_outside_the_source() {
    let files = vec![record("/a/x/y.txt", "y.txt"), record("/c/z.txt", "z.txt")];
    assert_eq!(
        mapping_files(&files, "/a", "/b"),
        vec![copy_into("/a/x/y.txt", "/b/x", "/b/x/y.txt")]
    );
}

#[test]
fn remap_of_a_file_directly_in_the_source_goes_directly_into_the_destination() {
    let files = vec![record("/a/y.txt", "y.txt")];
    assert_eq!(mapping_files(&files, "/a", "/b"), vec![copy_into("/a/y.txt", "/b", "/b/y.txt")]);
    assert_eq!(mapping_files(&files, "/a/", "/b/"), vec![copy_into("/a/y.txt", "/b/", "/b/y.txt")]);
}

#[test]
fn remap_goes_by_components_not_by_characters() {
    let files = vec![
        record("/ab/y.txt", "y.txt"),
        record("/a/b/c/d.txt", "d.txt"),
        record("/a", "a"),
        record("/x/a/y.txt", "y.txt"),
    ];
    assert_eq!(
        mapping_files(&files, "/a", "/out/in"),
        vec![copy_into("/a/b/c/d.txt", "/out/in/b/c", "/out/in/b/c/d.txt")]
    );
}

#[test]
fn remap_from_the_root_takes_every_file() {
    let files = vec![record("/a/y.txt", "y.txt"), record("/z", "z")];
    assert_eq!(
        mapping_files(&files, "/", "/b"),
        vec![copy_into("/a/y.txt", "/b/a", "/b/a/y.txt"), copy_into("/z", "/b", "/b/z")]
    );
}

#[test]
fn remap_from_a_deeper_source() {
    let files = vec![record("/a/b/c.txt", "c.txt"), record("/a/c.txt", "c.txt")];
    assert_eq!(
        mapping_files(&files, "/a/b", "/t"),
        vec![copy_into("/a/b/c.txt", "/t", "/t/c.txt")]
    );
}

#[test]
fn outcome_counts_attempts_and_successes() {
    assert_eq!(summarize(&Vec::new()), BatchOutcome { attempted: 0, succeeded: 0 });
    assert_eq!(
        summarize(&vec![true, false, true, true]),
        BatchOutcome { attempted: 4, succeeded: 3 }
    );
    assert_eq!(summarize(&vec![false, false]), BatchOutcome { attempted: 2, succeeded: 0 });
    let mut results = vec![true; 8];
    results.extend(vec![false; 2]);
    assert_eq!(summarize(&results), BatchOutcome { attempted: 10, succeeded: 8 });
}

#[test]
fn helper_plans_as_the_functions_do() {
    let files = vec![record("/a/x/y.txt", "y.txt"), record("/c/z.txt", "z.txt")];
    assert_eq!(SearchHelper::copy_files_to(&files, "/o"), copy_files(&files, "/o"));
    assert_eq!(SearchHelper::move_files_to(&files, "/o"), move_files(&files, "/o"));
    assert_eq!(SearchHelper::delete_files(&files), delete_files(&files));
    assert_eq!(SearchHelper::map_files(&files, "/a", "/b"), mapping_files(&files, "/a", "/b"));
    assert_eq!(SearchHelper::copy_files_to(&files, "/o").len(), 2);
    assert_eq!(SearchHelper::map_files(&files, "/a", "/b").len(), 1);
}
