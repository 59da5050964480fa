use editsync_core::search::{deserialize_path_matches, PathMatcher};

#[test]
fn path_matcher_creation_for_valid_paths() {
    for valid_path in [
        "file",
        "Cargo.toml",
        ".DS_Store",
        "~/dir/another_dir/",
        "./dir/file",
        "dir/[a-z].txt",
        "../dir/filé",
    ] {
        let path_matcher = PathMatcher::new(&vec![valid_path.to_owned()]).unwrap_or_else(|e| {
            panic!("Valid path {valid_path} should be accepted, but got: {e}")
        });
        assert!(
            path_matcher.is_match(valid_path),
            "Path matcher for valid path {valid_path} should match itself"
        )
    }
}

#[test]
fn path_matcher_creation_for_globs() {
    for invalid_glob in ["dir/[].txt", "dir/[a-z.txt", "dir/{file"] {
        match PathMatcher::new(&vec![invalid_glob.to_owned()]) {
            Ok(_) => panic!("Invalid glob {invalid_glob} should not be accepted"),
            Err(_expected) => {}
        }
    }

    for valid_glob in [
        "dir/?ile",
        "dir/*.txt",
        "dir/**/file",
        "dir/[a-z].txt",
        "{dir,file}",
    ] {
        match PathMatcher::new(&vec![valid_glob.to_owned()]) {
            Ok(_expected) => {}
            Err(e) => panic!("Valid glob should be accepted, but got: {e}"),
        }
    }
}

#[test]
fn glob_list_is_trimmed_and_skips_empty_entries() {
    let matcher = deserialize_path_matches(" src/*.rs , ,docs/**").unwrap();
    assert_eq!(matcher.sources(), &vec!["src/*.rs".to_string(), "docs/**".to_string()]);
    assert!(matcher.is_match("src/lib.rs"));
    assert!(matcher.is_match("docs/a/b.md"));
    assert!(!matcher.is_match("tests/a.rs"));
}

#[test]
fn glob_list_rejects_invalid_glob() {
    assert!(deserialize_path_matches("ok/*.rs,dir/[a-z.txt").is_err());
}

#[test]
fn empty_glob_list_matches_nothing() {
    let matcher = deserialize_path_matches("").unwrap();
    assert!(matcher.sources().is_empty());
    assert!(!matcher.is_match("anything"));
}

#[test]
fn path_prefix_matches_directory_contents() {
    let matcher = PathMatcher::new(&vec!["dir".to_string()]).unwrap();
    assert!(matcher.is_match("dir/sub/file.txt"));
    assert!(!matcher.is_match("dirx/file.txt"));
}
