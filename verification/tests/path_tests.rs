use jj::path::{is_normal_component, AbsPath, RelPath};

fn rel(text: &str) -> RelPath {
    RelPath::unix(text).expect("a relative path")
}

fn abs(text: &str) -> AbsPath {
    let components: Vec<String> = std::path::Path::new(text)
        .components()
        .map(|c| c.as_os_str().to_string_lossy().into_owned())
        .collect();
    AbsPath::new(text.to_string(), components)
}

#[test]
fn unix_splits_at_separators() {
    let path = rel("a/b/c.txt");
    assert_eq!(path.components(), &vec!["a".to_string(), "b".to_string(), "c.txt".to_string()]);
    assert_eq!(path.to_unix_string(), "a/b/c.txt");
}

#[test]
fn unix_of_empty_text_is_the_root() {
    let path = rel("");
    assert!(path.is_empty());
    assert_eq!(path.to_unix_string(), "");
}

#[test]
fn unix_refuses_what_is_no_plain_path() {
    assert!(RelPath::unix("/a").is_none());
    assert!(RelPath::unix("a/").is_none());
    assert!(RelPath::unix("a//b").is_none());
    assert!(RelPath::unix("a/./b").is_none());
    assert!(RelPath::unix("a/../b").is_none());
    assert!(RelPath::unix("..").is_none());
    assert!(RelPath::unix("...").is_some());
    assert!(RelPath::unix(".jj").is_some());
}

#[test]
fn normal_components() {
    assert!(is_normal_component("src"));
    assert!(is_normal_component("..."));
    assert!(is_normal_component(".a"));
    assert!(!is_normal_component(""));
    assert!(!is_normal_component("."));
    assert!(!is_normal_component(".."));
    assert!(!is_normal_component("a/b"));
    assert!(!is_normal_component("/"));
}

#[test]
fn starts_with_goes_by_components() {
    assert!(rel("a/b/c.txt").starts_with(&rel("a/b")));
    assert!(!rel("a/bc.txt").starts_with(&rel("a/b")));
    assert!(!rel("foobar").starts_with(&rel("foo")));
    assert!(rel("foo").starts_with(&rel("foo")));
    assert!(rel("foo").starts_with(&rel("")));
    assert!(!rel("a").starts_with(&rel("a/b")));
}

#[test]
fn abs_paths_compare_by_components() {
    assert!(abs("/root/repo").same_path(&abs("/root//repo/")));
    assert!(!abs("/root/repo").same_path(&abs("/root/repo2")));
    assert_eq!(abs("/root/repo").depth(), 3);
    assert_eq!(abs("/root//repo/").display(), "/root//repo/");
}

#[test]
fn relative_to_gives_the_text_below_the_root() {
    let root = abs("/root/repo");
    assert_eq!(abs("/root/repo/src/main.rs").relative_to(&root), Some("src/main.rs".to_string()));
    assert_eq!(abs("/root/repo").relative_to(&root), Some(String::new()));
    assert_eq!(abs("/root/repository/x").relative_to(&root), None);
    assert_eq!(abs("/root").relative_to(&root), None);
    assert_eq!(abs("/root/repo/../x").relative_to(&root), None);
}

#[test]
fn strip_prefix_keeps_what_lies_below() {
    let root = abs("/root");
    assert_eq!(
        abs("/root/a/b").strip_prefix(&root),
        Some(vec!["a".to_string(), "b".to_string()])
    );
    assert_eq!(abs("/other/a").strip_prefix(&root), None);
}

#[test]
fn relative_to_agrees_with_the_repository_library() {
    for (file, root) in [
        ("/root/repo/src/main.rs", "/root/repo"),
        ("/root/repo", "/root/repo"),
        ("/root/repo/a b/c", "/root/repo"),
        ("/root/repo/../x", "/root/repo"),
    ] {
        let expected = std::path::Path::new(file)
            .strip_prefix(root)
            .ok()
            .and_then(|rest| jj_lib::repo_path::RepoPathBuf::from_relative_path(rest).ok())
            .map(|path| path.as_internal_file_string().to_owned());
        assert_eq!(abs(file).relative_to(&abs(root)), expected);
    }
}

#[test]
fn a_path_that_is_written_and_read_again_is_the_same() {
    for text in ["", "a", "a/b", "src/main.rs", "...", ".jj/repo", "with space/x"] {
        let path = rel(text);
        assert_eq!(path.to_unix_string(), text);
        assert!(rel(&path.to_unix_string()).same_path(&path));
    }
}

#[test]
fn copies_of_paths_are_the_same_paths() {
    let path = rel("a/b");
    assert!(path.clone().same_path(&path));
    let file = abs("/root/x");
    let copy = file.clone();
    assert!(copy.same_path(&file));
    assert_eq!(copy.display(), file.display());
    assert!(abs("/root/x/y").starts_with(&file));
    assert!(!abs("/root/xy").starts_with(&file));
}
