//! Paths as bytes, and the resolution of links.

use recovery::paths::{list_has, lists_match, options_match, NativePath};
use recovery::resolve::{Query, Resolution, Resolved};

fn path(text: &str) -> NativePath {
    NativePath::from_text(text)
}

fn text(path: Option<NativePath>) -> Option<String> {
    path.map(|path| String::from_utf8(path.units).unwrap())
}

#[test]
fn parents_and_file_names() {
    for (whole, parent, name) in [
        ("/a/b.txt", Some("/a"), Some("b.txt")),
        ("/a/b/", Some("/a"), Some("b")),
        ("/a//b/./", Some("/a"), Some("b")),
        ("/a", Some("/"), Some("a")),
        ("/", None, None),
        ("", None, None),
        ("a", Some(""), Some("a")),
        (".", Some(""), None),
        ("./a", Some("."), Some("a")),
        ("a/..", Some("a"), None),
        ("//", None, None),
    ] {
        let whole = path(whole);
        assert_eq!(text(whole.parent()).as_deref(), parent, "{whole:?}");
        let found = whole.file_name().map(|n| String::from_utf8(n).unwrap());
        assert_eq!(found.as_deref(), name, "{whole:?}");
    }
}

#[test]
fn joining() {
    for (base, rest, whole) in [
        ("/a", "b", "/a/b"),
        ("/a/", "b", "/a/b"),
        ("/a", "/b", "/b"),
        ("", "b", "b"),
        ("/a", "", "/a/"),
        ("/", "b", "/b"),
    ] {
        assert_eq!(path(base).join(&path(rest)).units, whole.as_bytes());
    }
}

#[test]
fn sameness_and_order_go_by_components() {
    for (a, b) in [("/a/b", "/a//b/"), ("/a/./b", "/a/b"), (".", "./"), ("/", "//")] {
        assert!(path(a).same(&path(b)));
        assert!(!path(a).before(&path(b)) && !path(b).before(&path(a)));
    }
    for (a, b) in [
        ("/a/b", "/a/c"),
        ("/a", "/a/b"),
        ("/a/b", "/a.b"),
        ("/z", "a"),
        ("..", "a"),
        (".", ".."),
        ("", "/"),
    ] {
        assert!(path(a).before(&path(b)), "{a} {b}");
        assert!(!path(b).before(&path(a)) && !path(a).same(&path(b)));
    }
    assert!(!path("./a").same(&path("a")));
    assert!(!path("/a/../b").same(&path("/b")));
    let list = vec![path("/a"), path("/b/")];
    assert!(list_has(&list, &path("/b")));
    assert!(!list_has(&list, &path("/c")));
    assert!(lists_match(&list, &vec![path("/a/"), path("/b")]));
    assert!(!lists_match(&list, &vec![path("/b"), path("/a")]));
    assert!(options_match(&Some(path("/a")), &Some(path("/a/."))));
    assert!(!options_match(&None, &Some(path("/a"))));
    assert!(options_match(&None, &None));
}

#[test]
fn remainders_behind_an_ancestor() {
    for (whole, ancestor, rest) in [
        ("/a/b/c", "/a", "b/c"),
        ("/a/b/c", "/", "a/b/c"),
        ("/a//./b/", "/a", "b"),
    ] {
        assert_eq!(
            path(whole).remainder(&path(ancestor)).units,
            rest.as_bytes()
        );
    }
}

/// Resolves with links and directories that exist.
fn resolve(start: &str, links: &[(&str, &str)], real: &[(&str, &str)]) -> Result<String, String> {
    let mut resolution = Resolution::original_path(&path(start), &path("/work"));
    loop {
        let find = |list: &[(&str, &str)], asked: &NativePath| {
            list.iter()
                .find(|(from, _)| from.as_bytes() == asked.units)
                .map(|(_, to)| path(to))
        };
        let answer = match resolution.query() {
            Query::Canonicalize(asked) => find(real, &asked),
            Query::ReadLink(asked) => find(links, &asked),
            Query::Normalize(asked) => Some(asked.join(&path("normalized"))),
        };
        match resolution.answer(answer) {
            Resolved::Ask(next) => resolution = next,
            Resolved::Found(found) => return Ok(text(Some(found)).unwrap()),
            other => return Err(format!("{other:?}")),
        }
    }
}

#[test]
fn resolution_follows_links_and_keeps_the_rest() {
    assert_eq!(resolve("a", &[], &[("/work/a", "/real/a")]).unwrap(), "/real/a");
    assert_eq!(
        resolve("x/new.txt", &[], &[("/work", "/real")]).unwrap(),
        "/real/x/new.txt"
    );
    assert_eq!(
        resolve(
            "link",
            &[("/work/link", "sub/target"), ("/work/sub/target", "/far/file")],
            &[("/far", "/distant")]
        )
        .unwrap(),
        "/distant/file"
    );
    assert_eq!(resolve("a", &[], &[]).unwrap(), "/work/a/normalized");
    assert!(resolve("loop", &[("/work/loop", "loop")], &[])
        .unwrap_err()
        .starts_with("TooManyLinks"));
    assert_eq!(resolve("/", &[("/", "x")], &[]).unwrap_err(), "NoParent");
}

#[test]
fn exactly_forty_links_are_too_many() {
    let names: Vec<String> = (0..41).map(|i| format!("/work/l{i}")).collect();
    for (count, fine) in [(39, true), (40, false)] {
        let links: Vec<(&str, &str)> = (0..count)
            .map(|i| (names[i].as_str(), names[i + 1].as_str()))
            .collect();
        let real = [(names[count].as_str(), "/real")];
        assert_eq!(resolve("l0", &links, &real).is_ok(), fine);
    }
}
