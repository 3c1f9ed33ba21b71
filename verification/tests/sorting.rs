use extended_search::helper::SearchHelper;
use extended_search::search_file::order::{record_le, sort_by_key, SortKey};
use extended_search::search_file::{sort_files, SingleFileInformations};

fn record(path: &str, name: &str, size: u64, time: u64, hash: &str) -> SingleFileInformations {
    SingleFileInformations {
        path: path.to_string(),
        name: name.to_string(),
        size,
        time,
        hash: hash.to_string(),
    }
}

fn sample() -> Vec<SingleFileInformations> {
    vec![
        record("/b/one", "one", 30, 5, "cc"),
        record("/a/two", "two", 10, 7, "aa"),
        record("/a-b/three", "three", 20, 6, "bb"),
        record("/a/four", "four", 10, 9, "aa"),
        record("/c/five", "five", 20, 5, "dd"),
    ]
}

fn names(files: &Vec<SingleFileInformations>) -> Vec<&str> {
    files.iter().map(|f| f.name.as_str()).collect()
}

fn sorted(sort_type: &str, reversed: bool) -> Vec<SingleFileInformations> {
    let mut files = sample();
    sort_files(&mut files, sort_type.to_string(), reversed);
    files
}

#[test]
fn sort_by_size_keeps_equal_sizes_in_their_order() {
    assert_eq!(names(&sorted("size", false)), vec!["two", "four", "three", "five", "one"]);
}

#[test]
fn sort_by_size_falling_keeps_equal_sizes_in_their_order() {
    assert_eq!(names(&sorted("size", true)), vec!["one", "three", "five", "two", "four"]);
}

#[test]
fn sort_by_size_twice_is_sort_by_size_once() {
    let once = sorted("size", false);
    let mut twice = sorted("size", false);
    sort_files(&mut twice, "size".to_string(), false);
    assert_eq!(twice, once);
    let mut falling = sorted("size", true);
    let expected = falling.clone();
    sort_files(&mut falling, "size".to_string(), true);
    assert_eq!(falling, expected);
}

#[test]
fn sort_by_name_is_by_code_point() {
    assert_eq!(names(&sorted("name", false)), vec!["five", "four", "one", "three", "two"]);
    assert_eq!(names(&sorted("name", true)), vec!["two", "three", "one", "four", "five"]);
    let mut files = vec![
        record("/x", "b", 0, 0, ""),
        record("/x", "B", 0, 0, ""),
        record("/x", "é", 0, 0, ""),
        record("/x", "", 0, 0, ""),
        record("/x", "ab", 0, 0, ""),
        record("/x", "a", 0, 0, ""),
        record("/x", "𐀀", 0, 0, ""),
        record("/x", "\u{ffff}", 0, 0, ""),
    ];
    sort_files(&mut files, "name".to_string(), false);
    assert_eq!(names(&files), vec!["", "B", "a", "ab", "b", "é", "\u{ffff}", "𐀀"]);
}

#[test]
fn sort_by_time_rises_and_falls() {
    assert_eq!(names(&sorted("time", false)), vec!["one", "five", "three", "two", "four"]);
    assert_eq!(names(&sorted("time", true)), vec!["four", "two", "three", "one", "five"]);
}

#[test]
fn sort_by_path_goes_component_by_component() {
    assert_eq!(names(&sorted("path", false)), vec!["four", "two", "three", "one", "five"]);
    assert_eq!(names(&sorted("path", true)), vec!["five", "one", "three", "two", "four"]);
}

#[test]
fn sort_by_path_puts_a_folder_before_what_it_holds() {
    let mut files = vec![
        record("/a/b/c", "c", 0, 0, ""),
        record("/a/b", "b", 0, 0, ""),
        record("/a", "a", 0, 0, ""),
        record("/a.txt", "a.txt", 0, 0, ""),
        record("/a/b.txt", "b.txt", 0, 0, ""),
    ];
    sort_files(&mut files, "path".to_string(), false);
    let paths: Vec<&str> = files.iter().map(|f| f.path.as_str()).collect();
    assert_eq!(paths, vec!["/a", "/a/b", "/a/b/c", "/a/b.txt", "/a.txt"]);
}

#[test]
fn sort_by_path_reads_repeated_separators_as_one() {
    let mut files = vec![
        record("/a//z", "z", 0, 0, ""),
        record("/a/b/", "b", 0, 0, ""),
        record("//a/a", "a", 0, 0, ""),
    ];
    sort_files(&mut files, "path".to_string(), false);
    assert_eq!(names(&files), vec!["a", "b", "z"]);
}

#[test]
fn unknown_sort_type_changes_nothing() {
    assert_eq!(sorted("date", false), sample());
    assert_eq!(sorted("", true), sample());
    assert_eq!(sorted("Name", true), sample());
    assert_eq!(sorted("hash", false), sample());
}

#[test]
fn sort_of_nothing_and_of_one_file() {
    let mut none: Vec<SingleFileInformations> = Vec::new();
    sort_files(&mut none, "size".to_string(), false);
    assert!(none.is_empty());
    let mut one = vec![record("/a", "a", 1, 1, "")];
    sort_files(&mut one, "size".to_string(), true);
    assert_eq!(one, vec![record("/a", "a", 1, 1, "")]);
}

#[test]
fn sort_keeps_every_file() {
    for sort_type in ["name", "size", "time", "path"] {
        let mut result: Vec<String> = sorted(sort_type, false).into_iter().map(|f| f.path).collect();
        result.sort();
        let mut expected: Vec<String> = sample().into_iter().map(|f| f.path).collect();
        expected.sort();
        assert_eq!(result, expected);
    }
}

#[test]
fn sort_of_a_falling_collection_rises() {
    let mut files: Vec<SingleFileInformations> =
        (0..50u64).rev().map(|n| record("/x", "x", n / 2, n, "")).collect();
    sort_files(&mut files, "size".to_string(), false);
    let sizes: Vec<u64> = files.iter().map(|f| f.size).collect();
    let expected: Vec<u64> = (0..50u64).map(|n| n / 2).collect();
    assert_eq!(sizes, expected);
    let times: Vec<u64> = files.iter().map(|f| f.time).collect();
    let stable: Vec<u64> = (0..25u64).flat_map(|n| [2 * n + 1, 2 * n]).collect();
    assert_eq!(times, stable);
}

#[test]
fn sort_by_hash_is_what_dedup_uses() {
    let mut files = sample();
    sort_by_key(&mut files, SortKey::Hash, false);
    assert_eq!(names(&files), vec!["two", "four", "three", "one", "five"]);
}

#[test]
fn record_le_ranks_by_the_key() {
    let small = record("/b", "x", 1, 9, "f");
    let large = record("/a", "y", 2, 3, "e");
    assert!(record_le(SortKey::Size, false, &small, &large));
    assert!(!record_le(SortKey::Size, true, &small, &large));
    assert!(record_le(SortKey::Name, false, &small, &large));
    assert!(!record_le(SortKey::Time, false, &small, &large));
    assert!(!record_le(SortKey::Path, false, &small, &large));
    assert!(!record_le(SortKey::Hash, false, &small, &large));
    assert!(record_le(SortKey::Hash, false, &small, &small));
    assert!(record_le(SortKey::Path, true, &small, &small));
}

#[test]
fn helper_sorts_as_sort_files_does() {
    let mut files = sample();
    SearchHelper::sort_results(&mut files, "time", true);
    assert_eq!(files, sorted("time", true));
}

fn scrambled(count: u64) -> Vec<SingleFileInformations> {
    let mut state: u64 = 0x2545_f491_4f6c_dd1d;
    let mut next = move || {
        state = state.wrapping_mul(6364136223846793005).wrapping_add(1442695040888963407);
        state >> 33
    };
    let folders = ["a", "a-b", "a.b", "ab", "b", "é", "Z", "a/b", "a/b-c"];
    (0..count)
        .map(|n| {
            let folder = folders[(next() % 9) as usize];
            let name = format!("f{}", next() % 20);
            record(
                &format!("/{}/{}", folder, name),
                &name,
                next() % 7,
                next() % 5,
                &format!("{:x}", n),
            )
        })
        .collect()
}

#[test]
fn sort_agrees_with_the_stable_sort_of_the_standard_library() {
    for count in [0u64, 1, 2, 3, 7, 64, 257, 1000] {
        let given = scrambled(count);
        for reversed in [false, true] {
            let mut by_size = given.clone();
            sort_files(&mut by_size, "size".to_string(), reversed);
            let mut expected = given.clone();
            expected.sort_by(|a, b| if reversed { b.size.cmp(&a.size) } else { a.size.cmp(&b.size) });
            assert_eq!(by_size, expected);

            let mut by_time = given.clone();
            sort_files(&mut by_time, "time".to_string(), reversed);
            let mut expected = given.clone();
            expected.sort_by(|a, b| if reversed { b.time.cmp(&a.time) } else { a.time.cmp(&b.time) });
            assert_eq!(by_time, expected);

            let mut by_name = given.clone();
            sort_files(&mut by_name, "name".to_string(), reversed);
            let mut expected = given.clone();
            expected.sort_by(|a, b| if reversed { b.name.cmp(&a.name) } else { a.name.cmp(&b.name) });
            assert_eq!(by_name, expected);

            let mut by_path = given.clone();
            sort_files(&mut by_path, "path".to_string(), reversed);
            let mut expected = given.clone();
            expected.sort_by(|a, b| {
                let left = std::path::Path::new(&a.path);
                let right = std::path::Path::new(&b.path);
                if reversed {
                    right.cmp(left)
                } else {
                    left.cmp(right)
                }
            });
            assert_eq!(by_path, expected);
        }
    }
}
