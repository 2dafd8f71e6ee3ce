use stayhydated::routing::{base_href, base_path_mount_points, href, normalized_path_segments, site_root_prefix, trailing_slash};

#[test]
fn base_href_normalizes_optional_base_paths() {
    assert_eq!(base_href(None), "/");
    assert_eq!(base_href(Some("")), "/");
    assert_eq!(base_href(Some("/project/")), "/project/");
}

#[test]
fn href_joins_routes_under_base_href() {
    assert_eq!(href("/project/", ""), "/project/");
    assert_eq!(href("/project", "demos"), "/project/demos/");
    assert_eq!(href("/", "/book/"), "/book/");
}

#[test]
fn root_prefix_tracks_output_depth() {
    assert_eq!(site_root_prefix(""), "./");
    assert_eq!(site_root_prefix("demos"), "../");
    assert_eq!(site_root_prefix("zh/demos"), "../../");
}

#[test]
fn normalized_segments_strip_matching_base_path() {
    assert_eq!(
        normalized_path_segments("/repo/zh/demos/", Some("repo")),
        ["zh", "demos"]
    );
    assert_eq!(
        normalized_path_segments("/other/zh/demos/", Some("repo")),
        ["other", "zh", "demos"]
    );
}

#[test]
fn base_href_trims_every_surrounding_slash() {
    assert_eq!(base_href(Some("///")), "/");
    assert_eq!(base_href(Some("//a/b//")), "/a/b/");
    assert_eq!(base_href(Some("project")), "/project/");
}

#[test]
fn base_href_is_idempotent_on_examples() {
    for base in ["", "/", "project", "/project/", "//a/b//"] {
        let once = base_href(Some(base));
        assert_eq!(base_href(Some(&once)), once);
    }
}

#[test]
fn href_always_ends_with_a_slash() {
    assert_eq!(href("", ""), "/");
    assert_eq!(href("", "x"), "/x/");
    assert_eq!(href("/a/", "//b//c//"), "/a/b//c/");
}

#[test]
fn trailing_slash_adds_one_slash_only_when_missing() {
    assert_eq!(trailing_slash(""), "/");
    assert_eq!(trailing_slash("a"), "a/");
    assert_eq!(trailing_slash("a/"), "a/");
}

#[test]
fn root_prefix_of_slashes_only_is_empty() {
    assert_eq!(site_root_prefix("///"), "");
    assert_eq!(site_root_prefix("/a//b/"), "../../");
}

#[test]
fn normalized_segments_keep_path_when_base_is_absent_or_longer() {
    assert_eq!(normalized_path_segments("/a/b", None), ["a", "b"]);
    assert_eq!(normalized_path_segments("/a/b", Some("/")), ["a", "b"]);
    assert_eq!(normalized_path_segments("/a", Some("a/b")), ["a"]);
    assert_eq!(normalized_path_segments("/a/b/c", Some("//a//b//")), ["c"]);
    assert!(normalized_path_segments("/a/b", Some("a/b")).is_empty());
    assert!(normalized_path_segments("", None).is_empty());
}

#[test]
fn base_path_mounts_nested_and_bare_routes() {
    assert_eq!(base_path_mount_points("/repo/"), ("/repo/".to_owned(), "/repo".to_owned()));
    assert_eq!(base_path_mount_points("a/b"), ("/a/b/".to_owned(), "/a/b".to_owned()));
}
