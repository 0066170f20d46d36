use opendalfs::path::normalize;
use opendalfs::path::normalize_root;

#[test]
fn empty_path_normalizes_to_root() {
    assert_eq!(normalize(""), "/");
    assert_eq!(normalize("/"), "/");
    assert_eq!(normalize("///"), "/");
}

#[test]
fn leading_slashes_are_dropped() {
    assert_eq!(normalize("/abc/def"), "abc/def");
    assert_eq!(normalize("///abc/def"), "abc/def");
}

#[test]
fn repeated_slashes_collapse() {
    assert_eq!(normalize("abc///def"), "abc/def");
    assert_eq!(normalize("a//b//c"), "a/b/c");
}

#[test]
fn trailing_slash_is_preserved() {
    assert_eq!(normalize("abc/"), "abc/");
    assert_eq!(normalize("/abc/def/"), "abc/def/");
    assert_eq!(normalize("abc"), "abc");
}

#[test]
fn dot_segments_resolve() {
    assert_eq!(normalize("a/./b"), "a/b");
    assert_eq!(normalize("./a"), "a");
    assert_eq!(normalize("a/../b"), "b");
    assert_eq!(normalize("a/b/.."), "a");
    assert_eq!(normalize("../a"), "a");
    assert_eq!(normalize(".."), "/");
    assert_eq!(normalize("."), "/");
}

#[test]
fn normalization_is_idempotent_on_samples() {
    let samples = [
        "",
        "/",
        "///",
        "a",
        "/a/",
        "a//b/./c/../d",
        "abc///def/",
        "..",
        "../../x/",
        "a b/c d",
        " a",
        "a/ /b",
    ];
    for s in samples {
        let once = normalize(s);
        let twice = normalize(&once);
        assert_eq!(once, twice);
    }
}

#[test]
fn roots_normalize_to_wrapped_form() {
    assert_eq!(normalize_root(""), "/");
    assert_eq!(normalize_root("/"), "/");
    assert_eq!(normalize_root("abc"), "/abc/");
    assert_eq!(normalize_root("/abc"), "/abc/");
    assert_eq!(normalize_root("abc/def/"), "/abc/def/");
    assert_eq!(normalize_root("//abc//def"), "/abc/def/");
}
