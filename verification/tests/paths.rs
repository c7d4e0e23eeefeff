use devprox::path::{locate, sanitize};
use devprox::text::starts_with;

#[test]
fn prefix_is_compared_literally() {
    assert!(starts_with("/api/users", "/api"));
    assert!(starts_with("/api", "/api"));
    assert!(starts_with("/apiary", "/api"));
    assert!(starts_with("anything", ""));
    assert!(!starts_with("/ap", "/api"));
    assert!(!starts_with("/API/users", "/api"));
    assert!(!starts_with("", "/api"));
    assert!(!starts_with("/x/api", "/api"));
}

#[test]
fn prefix_with_wide_characters() {
    assert!(starts_with("/caf\u{e9}/menu", "/caf\u{e9}"));
    assert!(!starts_with("/cafe/menu", "/caf\u{e9}"));
    assert!(!starts_with("/caf\u{e9}", "/caf\u{e9}/"));
}

#[test]
fn plain_path_loses_its_leading_slash() {
    assert_eq!(sanitize("/index.html"), Some("index.html".to_string()));
    assert_eq!(sanitize("/css/site.css"), Some("css/site.css".to_string()));
    assert_eq!(sanitize("index.html"), Some("index.html".to_string()));
}

#[test]
fn root_itself_is_the_empty_path() {
    assert_eq!(sanitize("/"), Some(String::new()));
    assert_eq!(sanitize(""), Some(String::new()));
    assert_eq!(sanitize("/."), Some(String::new()));
    assert_eq!(sanitize("/a/.."), Some(String::new()));
    assert_eq!(sanitize("///"), Some(String::new()));
}

#[test]
fn empty_and_dot_segments_are_dropped() {
    assert_eq!(sanitize("/a/./b//c/"), Some("a/b/c".to_string()));
    assert_eq!(sanitize("//etc/passwd"), Some("etc/passwd".to_string()));
    assert_eq!(sanitize("/./././x"), Some("x".to_string()));
}

#[test]
fn parent_segment_steps_back() {
    assert_eq!(sanitize("/a/../b"), Some("b".to_string()));
    assert_eq!(sanitize("/a/b/../../c"), Some("c".to_string()));
    assert_eq!(sanitize("/a/b/c/../d"), Some("a/b/d".to_string()));
}

#[test]
fn path_that_leaves_the_root_is_refused() {
    assert_eq!(sanitize("/../../etc/passwd"), None);
    assert_eq!(sanitize("/.."), None);
    assert_eq!(sanitize(".."), None);
    assert_eq!(sanitize("/a/../.."), None);
    assert_eq!(sanitize("/a/../../a/b"), None);
    assert_eq!(sanitize("/a/b/../../../a/b/c"), None);
}

#[test]
fn names_that_only_look_like_dots_are_kept() {
    assert_eq!(sanitize("/..."), Some("...".to_string()));
    assert_eq!(sanitize("/..a/b.."), Some("..a/b..".to_string()));
    assert_eq!(sanitize("/.hidden"), Some(".hidden".to_string()));
    assert_eq!(sanitize("/a/.. /b"), Some("a/.. /b".to_string()));
}

#[test]
fn sanitised_path_with_wide_characters() {
    assert_eq!(sanitize("/caf\u{e9}/../\u{4e2d}\u{6587}.txt"), Some("\u{4e2d}\u{6587}.txt".to_string()));
}

#[test]
fn sanitised_path_never_holds_a_parent_segment() {
    let paths = [
        "/a/../b/../c", "/x/./../y", "/a//b/../../c/d", "/a/b/c/../../..", "/..a/../..b",
        "/a/../b/..", "/p/q/../r/./s/../../t",
    ];
    for path in paths {
        let clean = sanitize(path).unwrap();
        assert!(!clean.starts_with('/'));
        assert!(clean.is_empty() || clean.split('/').all(|s| !s.is_empty() && s != "." && s != ".."));
    }
}

#[test]
fn file_is_located_below_the_root() {
    assert_eq!(locate("/srv/www", "index.html"), "/srv/www/index.html");
    assert_eq!(locate("/srv/www/", "index.html"), "/srv/www/index.html");
    assert_eq!(locate("/", "index.html"), "/index.html");
    assert_eq!(locate("", "index.html"), "index.html");
    assert_eq!(locate("/srv/www", ""), "/srv/www/");
    assert_eq!(locate("/srv/www", "css/site.css"), "/srv/www/css/site.css");
}
