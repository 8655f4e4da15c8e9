use logwatcher::path::FilePath;

fn path(text: &str) -> FilePath {
    FilePath::from_text(text)
}

#[test]
fn paths_are_compared_by_their_parts() {
    assert!(path("/tmp/a").same_as(&path("/tmp//a")));
    assert!(path("/tmp/a").same_as(&path("/tmp/./a/")));
    assert!(path("a/b").same_as(&path("a/./b")));
    assert!(!path("/tmp/a").same_as(&path("tmp/a")));
    assert!(!path("./a").same_as(&path("a")));
    assert!(!path("/tmp/../a").same_as(&path("/a")));
    assert!(!path("/tmp/a").same_as(&path("/tmp/b")));
}

#[test]
fn a_path_is_the_text_that_it_was_made_of() {
    assert_eq!(path("/tmp//a/").display(), "/tmp//a/");
    assert_eq!(path("/tmp/\u{fc}").bytes, "/tmp/\u{fc}".as_bytes().to_vec());
    assert_eq!(FilePath::new(vec![b'/', 0xff]).display(), "/\u{fffd}");
    assert_eq!(path("/tmp/x").duplicate().bytes, path("/tmp/x").bytes);
}

#[test]
fn prefixes_are_whole_parts() {
    let stripped = |p: &str, base: &str| path(p).strip_prefix(&path(base)).map(|r| r.display());
    assert_eq!(stripped("/tmp/a/b.log", "/tmp"), Some("a/b.log".to_string()));
    assert_eq!(stripped("/tmp//a/b.log", "/tmp/"), Some("a/b.log".to_string()));
    assert_eq!(stripped("/tmp", "/tmp"), Some("".to_string()));
    assert_eq!(stripped("/tmpfile", "/tmp"), None);
    assert_eq!(stripped("/var/a", "/tmp"), None);
}

#[test]
fn names_are_the_last_parts() {
    assert_eq!(path("/tmp/a.log").file_name(), Some("a.log".to_string()));
    assert_eq!(path("/tmp/a.log/").file_name(), Some("a.log".to_string()));
    assert_eq!(path("/tmp/a.log/.").file_name(), Some("a.log".to_string()));
    assert_eq!(path("/tmp/..").file_name(), None);
    assert_eq!(path("/").file_name(), None);
    assert_eq!(FilePath::new(vec![b'a', b'/', 0xff]).file_name(), None);
}

#[test]
fn paths_agree_with_std() {
    let texts = [
        "/", "//", ".", "..", "a", "a/", "/a", "//a", "/a/b", "/a//b", "/a/./b", "./a", "a/.",
        "a/..", "/a/../b", "a//", "./", "/.", "/./a", "a/b/c", "",
    ];
    for a in texts {
        let std_a = std::path::Path::new(a);
        assert_eq!(
            path(a).file_name(),
            std_a.file_name().map(|n| n.to_string_lossy().into_owned()),
            "name of {:?}",
            a
        );
        for b in texts {
            let std_b = std::path::Path::new(b);
            assert_eq!(path(a).same_as(&path(b)), std_a == std_b, "{:?} and {:?}", a, b);
            assert_eq!(
                path(a).strip_prefix(&path(b)).map(|r| r.display()),
                std_a.strip_prefix(std_b).ok().map(|r| r.display().to_string()),
                "{:?} under {:?}",
                a,
                b
            );
        }
    }
}
