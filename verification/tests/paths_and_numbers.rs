use asciii::numbers::{parse_i32, parse_usize, year_string};
use asciii::paths::{is_dot_file, parse_path, string_eq, FsPath};

fn parts(p: &FsPath) -> Vec<String> {
    p.components().clone()
}

#[test]
fn parse_path_splits_on_separators() {
    let p = parse_path("/a/b/c");
    assert!(p.is_absolute());
    assert_eq!(parts(&p), vec!["a", "b", "c"]);

    let q = parse_path("rel/dir");
    assert!(!q.is_absolute());
    assert_eq!(parts(&q), vec!["rel", "dir"]);

    let doubled = parse_path("//x//y/");
    assert!(doubled.is_absolute());
    assert_eq!(parts(&doubled), vec!["x", "y"]);

    let empty = parse_path("");
    assert!(!empty.is_absolute());
    assert_eq!(parts(&empty).len(), 0);
}

#[test]
fn join_and_parent_walk_the_components() {
    let p = parse_path("/store").join("working").join("thing");
    assert_eq!(parts(&p), vec!["store", "working", "thing"]);
    let up = p.parent().unwrap();
    assert_eq!(parts(&up), vec!["store", "working"]);
    assert!(parse_path("").parent().is_none());
}

#[test]
fn stems_and_extensions_follow_the_last_dot() {
    let p = parse_path("/d/archive.tar.gz");
    assert_eq!(p.file_stem().unwrap(), "archive.tar");
    assert_eq!(p.extension().unwrap(), "gz");

    let hidden = parse_path("/d/.hidden");
    assert_eq!(hidden.file_stem().unwrap(), ".hidden");
    assert!(hidden.extension().is_none());

    let plain = parse_path("/d/name");
    assert_eq!(plain.file_stem().unwrap(), "name");
    assert!(plain.extension().is_none());
}

#[test]
fn prefixes_and_equality() {
    let root = parse_path("/store/archive");
    let deep = parse_path("/store/archive/2024/r1");
    assert!(deep.starts_with(&root));
    assert!(!root.starts_with(&deep));
    assert!(root.path_eq(&parse_path("/store/archive")));
    assert!(!root.path_eq(&parse_path("/store/working")));
    assert!(!root.path_eq(&parse_path("store/archive")));
}

#[test]
fn dot_files_are_hidden() {
    assert!(is_dot_file(&parse_path("/w/.git")));
    assert!(!is_dot_file(&parse_path("/w/project")));
    assert!(!is_dot_file(&parse_path("")));
}

#[test]
fn string_eq_compares_contents() {
    assert!(string_eq(&"abc".to_string(), &"abc".to_string()));
    assert!(!string_eq(&"abc".to_string(), &"abd".to_string()));
}

#[test]
fn parse_i32_accepts_what_std_accepts() {
    assert_eq!(parse_i32("2024"), Some(2024));
    assert_eq!(parse_i32("-5"), Some(-5));
    assert_eq!(parse_i32("+7"), Some(7));
    assert_eq!(parse_i32("2147483647"), Some(i32::MAX));
    assert_eq!(parse_i32("-2147483648"), Some(i32::MIN));
    assert_eq!(parse_i32("2147483648"), None);
    assert_eq!(parse_i32(""), None);
    assert_eq!(parse_i32("12a"), None);
    assert_eq!(parse_i32("-"), None);
    assert_eq!(parse_i32("twenty"), None);
}

#[test]
fn parse_usize_accepts_what_std_accepts() {
    assert_eq!(parse_usize("2"), Some(2));
    assert_eq!(parse_usize("+9"), Some(9));
    assert_eq!(parse_usize("-1"), None);
    assert_eq!(parse_usize(""), None);
    assert_eq!(parse_usize("003"), Some(3));
    assert_eq!(parse_usize("18446744073709551616"), None);
}

#[test]
fn years_render_in_decimal() {
    assert_eq!(year_string(2024), "2024");
    assert_eq!(year_string(0), "0");
    assert_eq!(year_string(-44), "-44");
    assert_eq!(parse_i32(&year_string(-2024)), Some(-2024));
}
