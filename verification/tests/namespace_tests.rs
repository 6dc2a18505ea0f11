use cos_fuse_demo::inode::InodeTable;
use cos_fuse_demo::listing::{list_directory, DirEntry, FileKind};
use cos_fuse_demo::namespace::{is_directory, is_object_path};
use cos_fuse_demo::text::{chars_eq, chars_lt, chars_of, string_of};

fn keys(list: &[&str]) -> Vec<String> {
    list.iter().map(|k| k.to_string()).collect()
}

fn table_for(paths: &[&str]) -> InodeTable {
    let mut table = InodeTable::new();
    for p in paths {
        table.get_or_create_inode(p);
    }
    table
}

fn names(entries: &[DirEntry]) -> Vec<(String, FileKind)> {
    entries.iter().map(|e| (e.name.clone(), e.kind)).collect()
}

#[test]
fn root_is_a_directory() {
    assert!(is_directory(&keys(&[]), "/"));
    assert!(is_directory(&keys(&["a.txt"]), "/"));
}

#[test]
fn ancestors_are_directories_and_objects_are_files() {
    let k = keys(&["a.txt", "dir/b.txt", "data/subdir/file3.txt"]);
    assert!(is_directory(&k, "/dir"));
    assert!(is_directory(&k, "/data"));
    assert!(is_directory(&k, "/data/subdir"));
    assert!(!is_directory(&k, "/a.txt"));
    assert!(!is_directory(&k, "/dir/b.txt"));
    assert!(!is_directory(&k, "/data/subdir/file3.txt"));
    assert!(is_object_path(&k, "/a.txt"));
    assert!(is_object_path(&k, "/dir/b.txt"));
    assert!(!is_object_path(&k, "/dir"));
    assert!(!is_object_path(&k, "a.txt"));
}

#[test]
fn a_textual_prefix_is_no_directory() {
    let k = keys(&["a", "ab", "dir/b.txt", "dirx/c"]);
    assert!(!is_directory(&k, "/a"));
    assert!(!is_directory(&k, "/di"));
    assert!(!is_directory(&k, "/dir/b"));
    assert!(!is_directory(&k, "/dir/"));
    assert!(!is_directory(&k, "dir"));
    assert!(!is_directory(&k, "/missing"));
}

#[test]
fn the_path_of_an_object_is_never_a_directory() {
    let k = keys(&["a", "a/b", "a/b/c"]);
    assert!(!is_directory(&k, "/a"));
    assert!(!is_directory(&k, "/a/b"));
    assert!(!is_directory(&k, "/a/b/c"));
    assert!(is_object_path(&k, "/a"));
    assert!(is_directory(&keys(&["a/b", "a/b/c"]), "/a"));
    assert!(is_directory(&keys(&[""]), "/"));
}

#[test]
fn a_trailing_slash_puts_nothing_under_a_path() {
    let k = keys(&["dir/"]);
    assert!(!is_directory(&k, "/dir"));
    assert!(is_object_path(&k, "/dir/"));
}

#[test]
fn root_listing_is_sorted_and_classified() {
    let k = keys(&["dir/b.txt", "a.txt"]);
    let table = table_for(&["/dir/b.txt", "/dir", "/a.txt"]);
    let entries = list_directory(&k, &table, "/");
    assert_eq!(
        names(&entries),
        vec![("a.txt".to_string(), FileKind::File), ("dir".to_string(), FileKind::Directory)]
    );
    assert_eq!(entries[0].ino, 4);
    assert_eq!(entries[1].ino, 3);
}

#[test]
fn subdirectory_listing_strips_the_prefix() {
    let k = keys(&["data/file1.txt", "data/file2.jpg", "data/subdir/file3.txt", "README.md"]);
    let table = table_for(&[
        "/data/file1.txt",
        "/data",
        "/data/file2.jpg",
        "/data/subdir/file3.txt",
        "/data/subdir",
        "/README.md",
    ]);
    let root = list_directory(&k, &table, "/");
    assert_eq!(
        names(&root),
        vec![("README.md".to_string(), FileKind::File), ("data".to_string(), FileKind::Directory)]
    );
    let data = list_directory(&k, &table, "/data");
    assert_eq!(
        names(&data),
        vec![
            ("file1.txt".to_string(), FileKind::File),
            ("file2.jpg".to_string(), FileKind::File),
            ("subdir".to_string(), FileKind::Directory),
        ]
    );
    assert_eq!(data[0].ino, 2);
    assert_eq!(data[1].ino, 4);
    assert_eq!(data[2].ino, 6);
    let sub = list_directory(&k, &table, "/data/subdir");
    assert_eq!(names(&sub), vec![("file3.txt".to_string(), FileKind::File)]);
    assert_eq!(sub[0].ino, 5);
}

#[test]
fn listing_does_not_depend_on_key_order() {
    let paths = ["/b/x", "/b", "/a", "/c/y/z", "/c/y", "/c", "/b/w"];
    let table = table_for(&paths);
    let one = keys(&["b/x", "a", "c/y/z", "b/w"]);
    let two = keys(&["b/w", "c/y/z", "a", "b/x", "a"]);
    for dir in ["/", "/b", "/c", "/c/y", "/a", "/none"] {
        let first = list_directory(&one, &table, dir);
        let second = list_directory(&two, &table, dir);
        assert_eq!(names(&first), names(&second), "in {}", dir);
    }
    assert_eq!(
        names(&list_directory(&one, &table, "/")),
        vec![
            ("a".to_string(), FileKind::File),
            ("b".to_string(), FileKind::Directory),
            ("c".to_string(), FileKind::Directory),
        ]
    );
    assert_eq!(
        names(&list_directory(&one, &table, "/b")),
        vec![("w".to_string(), FileKind::File), ("x".to_string(), FileKind::File)]
    );
}

#[test]
fn a_name_is_a_directory_if_any_key_lies_under_it() {
    let table = table_for(&["/a", "/a/b"]);
    for k in [keys(&["a", "a/b"]), keys(&["a/b", "a"])] {
        let entries = list_directory(&k, &table, "/");
        assert_eq!(names(&entries), vec![("a".to_string(), FileKind::Directory)]);
    }
}

#[test]
fn a_sibling_with_the_same_start_is_not_listed() {
    let k = keys(&["dir/b.txt", "dirx/c.txt"]);
    let table = table_for(&["/dir/b.txt", "/dir", "/dirx/c.txt", "/dirx"]);
    let entries = list_directory(&k, &table, "/dir");
    assert_eq!(names(&entries), vec![("b.txt".to_string(), FileKind::File)]);
}

#[test]
fn listing_of_a_file_or_of_nothing_is_empty() {
    let k = keys(&["a.txt", "dir/b.txt"]);
    let table = table_for(&["/a.txt", "/dir/b.txt", "/dir"]);
    assert!(list_directory(&k, &table, "/a.txt").is_empty());
    assert!(list_directory(&k, &table, "/missing").is_empty());
    assert!(list_directory(&keys(&[]), &InodeTable::new(), "/").is_empty());
}

#[test]
fn empty_names_are_not_listed() {
    let k = keys(&["a//b", "dir/", ""]);
    let table = table_for(&["/a//b", "/a/", "/a", "/dir/"]);
    let root = list_directory(&k, &table, "/");
    assert_eq!(names(&root), vec![("a".to_string(), FileKind::Directory)]);
    assert!(list_directory(&k, &table, "/a").is_empty());
    assert!(list_directory(&k, &table, "/dir").is_empty());
}

#[test]
fn names_sort_by_code_point() {
    let k = keys(&["b", "B", "a", "ab", "é", "Z/z", "10", "9"]);
    let table = table_for(&["/b", "/B", "/a", "/ab", "/é", "/Z/z", "/Z", "/10", "/9"]);
    let listed: Vec<String> =
        list_directory(&k, &table, "/").iter().map(|e| e.name.clone()).collect();
    let mut expected = vec!["b", "B", "a", "ab", "é", "Z", "10", "9"];
    expected.sort();
    assert_eq!(listed, expected);
    assert_eq!(listed, vec!["10", "9", "B", "Z", "a", "ab", "b", "é"]);
}

#[test]
fn text_helpers_agree_with_strings() {
    let samples = ["", "a", "ab", "b", "a/b", "é", "日本", "Z"];
    for a in samples {
        assert_eq!(string_of(&chars_of(a), 0, a.chars().count()), a);
        for b in samples {
            assert_eq!(chars_lt(&chars_of(a), &chars_of(b)), a < b, "{:?} < {:?}", a, b);
            assert_eq!(chars_eq(&chars_of(a), &chars_of(b)), a == b);
        }
    }
    assert_eq!(string_of(&chars_of("hello"), 1, 3), "el");
}
