use impeccable_terminal::paths::{resolve, to_relative, unique_roots};

#[test]
fn paths_resolve_against_the_working_directory_and_normalise() {
    assert_eq!(resolve("/a/./b/../c//d/", "/w"), "/a/c/d");
    assert_eq!(resolve("x/../y", "/w/v"), "/w/v/y");
    assert_eq!(resolve("", "/w"), "/w");
    assert_eq!(resolve("/../..", "/w"), "/");
}

#[test]
fn a_file_inside_the_root_is_named_relative_to_it() {
    assert_eq!(to_relative(Some("/p/.impeccable/config.json"), "/p"), Some(".impeccable/config.json".to_string()));
    assert_eq!(to_relative(Some("/p/a/../b.json"), "/p/"), Some("b.json".to_string()));
    // Outside the root, at the root, or behind a name starting with `..`: as given.
    assert_eq!(to_relative(Some("/q/x.json"), "/p"), Some("/q/x.json".to_string()));
    assert_eq!(to_relative(Some("/p"), "/p"), Some("/p".to_string()));
    assert_eq!(to_relative(Some("/p/..x/y"), "/p"), Some("/p/..x/y".to_string()));
    assert_eq!(to_relative(None, "/p"), None);
}

#[test]
fn the_repo_root_is_read_only_when_it_is_another_directory() {
    assert_eq!(unique_roots("/p", Some("/r"), "/w"), vec!["/p".to_string(), "/r".to_string()]);
    assert_eq!(unique_roots("/p", Some("/p/."), "/w"), vec!["/p".to_string()]);
    assert_eq!(unique_roots("p", Some(""), "/w"), vec!["/w/p".to_string()]);
    assert_eq!(unique_roots("p", None, "/w"), vec!["/w/p".to_string()]);
}
