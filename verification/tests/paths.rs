use posix_fs::Component;
use posix_fs::Name;
use posix_fs::PosixPath;
use std::path::Path;
use std::path::PathBuf;

fn path(text: &str) -> PosixPath {
    PosixPath::parse(text.as_bytes())
}

fn text(path: &PosixPath) -> String {
    String::from_utf8(path.to_bytes()).unwrap()
}

fn name(text: &str) -> Name {
    Name::new(text.as_bytes().to_vec()).unwrap()
}

/// The shortest string with the components that std finds in `text`.
fn std_normal_form(text: &str) -> String {
    let components: PathBuf = Path::new(text).components().collect();
    components.to_str().unwrap().to_string()
}

const SAMPLES: [&str; 40] = [
    "", "/", "//", "///", ".", "..", "./", "../", "/.", "/..", "a", "a/", "a//", "/a", "//a",
    "a/b", "a//b", "a/./b", "a/../b", "./a", "./a/b", "../a", "a/.", "a/..", "a/b/.", "a/b/..",
    "/a/b/c", "/a/b/c/", "/a/./b/../c", ".//.", "./.", "././a", "...", "a/.../b", ".a", "a.",
    "..a", "a b/c d", "/./a", "a/b/../c",
];

#[test]
fn parse_of_empty_string_has_no_components() {
    let empty = path("");
    assert!(empty.is_empty());
    assert_eq!(empty.len(), 0);
    assert_eq!(empty, PosixPath::new());
    assert_eq!(empty.to_bytes(), Vec::<u8>::new());
}

#[test]
fn parse_of_separator_is_root() {
    assert_eq!(path("/"), PosixPath::root());
    assert_eq!(path("//"), PosixPath::root());
    assert_eq!(path("/."), PosixPath::root());
    assert!(path("/").is_root());
    assert_eq!(path("/").len(), 1);
    assert_eq!(text(&path("///")), "/");
}

#[test]
fn parse_ignores_repeated_and_trailing_separators() {
    assert_eq!(path("a//b"), path("a/b"));
    assert_eq!(path("a/b/"), path("a/b"));
    assert_eq!(path("a/b//"), path("a/b"));
    assert_eq!(text(&path("//a///b//")), "/a/b");
    assert_eq!(path("a/b").len(), 2);
}

#[test]
fn parse_keeps_only_a_leading_dot() {
    assert_eq!(path(".").len(), 1);
    assert_eq!(path(".").split_last().unwrap().1, Component::CurDir);
    assert_eq!(text(&path("./a")), "./a");
    assert_eq!(path("./a").len(), 2);
    assert_eq!(path("a/./b"), path("a/b"));
    assert_eq!(path("a/."), path("a"));
    assert_eq!(path("./."), path("."));
    assert_eq!(path("/./a"), path("/a"));
}

#[test]
fn parse_keeps_every_parent_dir() {
    assert_eq!(path("..").len(), 1);
    assert_eq!(path("..").split_last().unwrap().1, Component::ParentDir);
    assert_eq!(path("a/../b").len(), 3);
    assert_eq!(text(&path("a/../b")), "a/../b");
    assert_eq!(text(&path("/..")), "/..");
    assert_eq!(path("../..").len(), 2);
}

#[test]
fn parse_takes_names_with_dots_as_names() {
    assert_eq!(path("...").split_last().unwrap().1, Component::Normal(name("...")));
    assert_eq!(path(".a").split_last().unwrap().1, Component::Normal(name(".a")));
    assert_eq!(path("a.").split_last().unwrap().1, Component::Normal(name("a.")));
    assert_eq!(path("..a").split_last().unwrap().1, Component::Normal(name("..a")));
}

#[test]
fn parse_then_render_agrees_with_std_on_every_sample() {
    for sample in SAMPLES {
        assert_eq!(text(&path(sample)), std_normal_form(sample), "sample {:?}", sample);
        assert_eq!(
            path(sample).len(),
            Path::new(sample).components().count(),
            "sample {:?}",
            sample
        );
    }
}

#[test]
fn render_then_parse_gives_the_path_back() {
    for sample in SAMPLES {
        let parsed = path(sample);
        assert_eq!(PosixPath::parse(&parsed.to_bytes()), parsed, "sample {:?}", sample);
    }
}

#[test]
fn render_puts_one_separator_between_components() {
    assert_eq!(path("/a").to_bytes(), b"/a".to_vec());
    assert_eq!(path("/a/b").to_bytes(), b"/a/b".to_vec());
    assert_eq!(path("a/b/c").to_bytes(), b"a/b/c".to_vec());
    assert_eq!(path("../a").to_bytes(), b"../a".to_vec());
    assert_eq!(path("./..").to_bytes(), b"./..".to_vec());
}

#[test]
fn name_must_be_a_single_entry() {
    assert!(Name::new(b"file.txt".to_vec()).is_some());
    assert!(Name::new(b"...".to_vec()).is_some());
    assert!(Name::new(b" ".to_vec()).is_some());
    assert!(Name::new(vec![0xff, 0xfe]).is_some());
    assert!(Name::new(Vec::new()).is_none());
    assert!(Name::new(b".".to_vec()).is_none());
    assert!(Name::new(b"..".to_vec()).is_none());
    assert!(Name::new(b"a/b".to_vec()).is_none());
    assert!(Name::new(b"/".to_vec()).is_none());
    assert!(Name::new(b"a/".to_vec()).is_none());
    assert_eq!(name("file.txt").as_bytes(), b"file.txt");
}

#[test]
fn split_last_cuts_before_the_last_component() {
    assert!(path("").split_last().is_none());
    let (front, last) = path("/a/b").split_last().unwrap();
    assert_eq!(front, path("/a"));
    assert_eq!(last, Component::Normal(name("b")));
    let (front, last) = path("/").split_last().unwrap();
    assert!(front.is_empty());
    assert_eq!(last, Component::RootDir);
    let (front, last) = path("a/b/..").split_last().unwrap();
    assert_eq!(front, path("a/b"));
    assert_eq!(last, Component::ParentDir);
    let (front, last) = path("./a").split_last().unwrap();
    assert_eq!(front, path("."));
    assert_eq!(last, Component::Normal(name("a")));
}

#[test]
fn join_appends_a_name() {
    assert_eq!(path("/a").join(&name("b")), path("/a/b"));
    assert_eq!(path("/").join(&name("b")), path("/b"));
    assert_eq!(path("").join(&name("b")), path("b"));
    assert_eq!(path("a/..").join(&name("b")), path("a/../b"));
    for sample in SAMPLES {
        let joined: PathBuf = Path::new(sample).join("entry").components().collect();
        assert_eq!(
            text(&path(sample).join(&name("entry"))),
            joined.to_str().unwrap(),
            "sample {:?}",
            sample
        );
    }
}

#[test]
fn parent_drops_the_last_component_but_never_the_root() {
    assert_eq!(path("/a/b").parent(), Some(path("/a")));
    assert_eq!(path("/a").parent(), Some(path("/")));
    assert_eq!(path("a").parent(), Some(path("")));
    assert_eq!(path("a/..").parent(), Some(path("a")));
    assert_eq!(path(".").parent(), Some(path("")));
    assert_eq!(path("/").parent(), None);
    assert_eq!(path("").parent(), None);
    for sample in SAMPLES {
        let expected = Path::new(sample)
            .parent()
            .map(|parent| std_normal_form(parent.to_str().unwrap()));
        assert_eq!(
            path(sample).parent().map(|parent| text(&parent)),
            expected,
            "sample {:?}",
            sample
        );
    }
}

#[test]
fn pop_removes_the_last_component_where_there_is_a_parent() {
    let mut nested = path("/a/b");
    assert!(nested.pop());
    assert_eq!(nested, path("/a"));
    assert!(nested.pop());
    assert_eq!(nested, path("/"));
    assert!(!nested.pop());
    assert_eq!(nested, path("/"));
    let mut empty = path("");
    assert!(!empty.pop());
    assert_eq!(empty, path(""));
    for sample in SAMPLES {
        let mut expected = PathBuf::from(sample);
        let removed = expected.pop();
        let mut popped = path(sample);
        assert_eq!(popped.pop(), removed, "sample {:?}", sample);
        assert_eq!(
            text(&popped),
            std_normal_form(expected.to_str().unwrap()),
            "sample {:?}",
            sample
        );
    }
}

#[test]
fn is_root_holds_of_the_root_alone() {
    assert!(PosixPath::root().is_root());
    assert!(!path("").is_root());
    assert!(!path("/a").is_root());
    assert!(!path(".").is_root());
    assert!(!path("/..").is_root());
    for sample in SAMPLES {
        assert_eq!(path(sample).is_root(), Path::new(sample) == Path::new("/"), "sample {:?}", sample);
    }
}

#[test]
fn clone_gives_an_equal_path() {
    for sample in SAMPLES {
        assert_eq!(path(sample).clone(), path(sample));
    }
    assert_eq!(name("a").clone(), name("a"));
    assert_eq!(Component::Normal(name("a")).clone(), Component::Normal(name("a")));
    assert_eq!(Component::ParentDir.clone(), Component::ParentDir);
}

#[test]
fn display_shows_text_as_it_is() {
    assert_eq!(path("/a/b").display(), "/a/b");
    assert_eq!(path("a//b/").display(), "a/b");
    assert_eq!(path("").display(), "");
    assert_eq!(path("/tmp/\u{e9}t\u{e9}").display(), "/tmp/\u{e9}t\u{e9}");
}

#[test]
fn display_replaces_bytes_that_are_no_text() {
    let odd = PosixPath::parse(&[b'/', b'f', 0xff, b'o']);
    assert_eq!(odd.to_bytes(), vec![b'/', b'f', 0xff, b'o']);
    assert_eq!(odd.display(), "/f\u{fffd}o");
}
