use pathlib::Component;
use pathlib::Component::CurDir;
use pathlib::Component::Normal;
use pathlib::Component::ParentDir;
use pathlib::Component::Root;
use pathlib::Components;
use pathlib::Dialect;
use pathlib::ParsablePath;
use pathlib::PosixPath;
use pathlib::PurePath;
use pathlib::PurePosixPath;
use pathlib::UnifiedPath;
use pathlib::WindowsPath;

fn posix_dialect() -> Dialect {
    Dialect {
        primary_separator: '/',
        secondary_separator: None,
        extension_separator: '.',
        drive_separator: None,
    }
}

fn windows_dialect() -> Dialect {
    Dialect {
        primary_separator: '\\',
        secondary_separator: Some('/'),
        extension_separator: '.',
        drive_separator: Some(':'),
    }
}

fn forward<'a, P: ParsablePath>(mut it: Components<'a, P>) -> Vec<Component<'a>> {
    let mut v = Vec::new();
    while let Some(c) = it.next() {
        v.push(c);
    }
    v
}

/// A leading `.` is a real component; an interior or trailing `.` is
/// noise.
#[test]
fn leading_dot_is_special() {
    let cases: [(&str, &[Component<'static>]); 4] = [
        (".", &[CurDir]),
        ("./x", &[CurDir, Normal("x")]),
        ("a/./b", &[Normal("a"), Normal("b")]),
        ("a/.", &[Normal("a")]),
    ];
    for &(path, components) in cases.iter() {
        let p = PosixPath::from(path);
        assert_eq!(forward(p.components()), components, "components() of {path:?}");
    }
}

/// The literal parent and file-name scenarios.
#[test]
fn parent_and_file_name_scenarios() {
    let p = PosixPath::from("/foo/bar");
    assert_eq!(p.parent().map(|x| String::from(x.as_text())), Some(String::from("/foo")));
    assert_eq!(p.file_name(), Some("bar"));
    let root = PosixPath::from("/");
    assert!(root.parent().is_none());
    assert!(root.file_name().is_none());
}

/// The literal component scenarios.
#[test]
fn component_scenarios() {
    let p = PosixPath::from("foo.txt/..");
    assert_eq!(forward(p.components()), &[Normal("foo.txt"), ParentDir]);
    let q = PosixPath::from("/a/.//.//");
    assert_eq!(forward(q.components()), &[Root, Normal("a")]);
}

/// The literal join scenarios, and join absorption for an absolute
/// second path.
#[test]
fn join_scenarios() {
    let a = PosixPath::from("/foo/");
    let b = PosixPath::from("bar/baz");
    assert_eq!(a.join(&b).as_text(), "/foo/bar/baz");
    let c = PosixPath::from("/foo");
    let e = PosixPath::from("/bar/");
    assert_eq!(c.join(&e).as_text(), "/bar/");
    // An absolute second path absorbs any first path.
    let absolute = PosixPath::from("/abs/olute");
    for first in ["", ".", "a/b", "/x/y/", ".."].iter() {
        let first = PosixPath::from(*first);
        assert_eq!(first.join(&absolute), absolute);
    }
    // An empty first path yields a separator-rooted result.
    let empty = PosixPath::from("");
    assert_eq!(empty.join(&b).as_text(), "/bar/baz");
}

/// The literal extension-splitting scenarios.
#[test]
fn extension_scenarios() {
    let p = PosixPath::from("foo...");
    assert_eq!((p.file_stem(), p.extension()), (Some("foo.."), Some("")));
    let q = PosixPath::from("/foo/.bar");
    assert_eq!((q.file_stem(), q.extension()), (Some(".bar"), None));
}

/// Replacing a bare file name's extension with itself gives the name
/// back.
#[test]
fn extension_round_trip() {
    let p = PosixPath::from("foo.txt");
    assert_eq!(p.with_extension("txt"), p);
    let q = PosixPath::from("archive.tar.gz");
    assert_eq!(q.with_extension("gz"), q);
    // An empty new extension leaves the bare stem.
    assert_eq!(p.with_extension("").as_text(), "foo");
    // A replaced extension.
    assert_eq!(p.with_extension("rs").as_text(), "foo.rs");
}

/// Interior noise changes neither the file name nor the parent's real
/// components.
#[test]
fn noise_does_not_change_results() {
    let plain = PosixPath::from("a/b");
    let dotted = PosixPath::from("a/./b");
    let doubled = PosixPath::from("a//b");
    assert_eq!(plain.file_name(), dotted.file_name());
    assert_eq!(plain.file_name(), doubled.file_name());
    let parent_plain = plain.parent().unwrap();
    let parent_dotted = dotted.parent().unwrap();
    assert_eq!(
        forward(parent_plain.components()),
        forward(parent_dotted.components()),
    );
}

/// Forward collection equals backward collection reversed on paths
/// without real components behind a collapsed separator.
#[test]
fn bidirectional_collection() {
    for path in ["/usr/local/bin", "a/b/c/", "./x/../y", "/..", "", "."].iter() {
        let p = PosixPath::from(*path);
        let fwd = forward(p.components());
        let mut back = Vec::new();
        let mut it = p.components();
        while let Some(c) = it.next_back() {
            back.push(c);
        }
        back.reverse();
        assert_eq!(fwd, back, "components() of {path:?} both ways");
    }
}

/// The raw splitting primitives find the first and the last separator.
#[test]
fn raw_splitting() {
    let d = posix_dialect();
    assert_eq!(pathlib::pure::split_once_with_delimiter("a/b/c", &d), Some(("a", "/", "b/c")));
    assert_eq!(pathlib::pure::rsplit_once_with_delimiter("a/b/c", &d), Some(("a/b", "/", "c")));
    assert_eq!(pathlib::pure::split_once_with_delimiter("abc", &d), None);
    assert_eq!(pathlib::pure::rsplit_once_with_delimiter("abc", &d), None);
    let w = windows_dialect();
    assert_eq!(pathlib::pure::split_once_with_delimiter("a\\b/c", &w), Some(("a", "\\", "b/c")));
    assert_eq!(pathlib::pure::rsplit_once_with_delimiter("a\\b/c", &w), Some(("a\\b", "/", "c")));
}

/// The lexical splits do not interpret `.` and `..`.
#[test]
fn lexical_splitting() {
    let d = posix_dialect();
    assert_eq!(pathlib::pure::split_first_lexical("./a", &d), (".", Some(("/", "a"))));
    assert_eq!(pathlib::pure::split_first_lexical("ab", &d), ("ab", None));
    assert_eq!(pathlib::pure::split_last_lexical("a/..", &d), (Some(("a", "/")), ".."));
    assert_eq!(pathlib::pure::split_last_lexical("ab", &d), (None, "ab"));
}

/// The drive prefix splits off at the drive separator where the dialect
/// has one.
#[test]
fn drive_splitting() {
    let w = windows_dialect();
    assert_eq!(pathlib::pure::split_driver("C:\\x", &w), (Some("C"), "\\x"));
    assert_eq!(pathlib::pure::split_driver("x\\y", &w), (None, "x\\y"));
    let d = posix_dialect();
    assert_eq!(pathlib::pure::split_driver("C:/x", &d), (None, "C:/x"));
}

/// Absoluteness is a leading separator, and nothing else.
#[test]
fn absoluteness() {
    assert!(PosixPath::from("/a").is_absolute());
    assert!(!PosixPath::from("a/b").is_absolute());
    assert!(PosixPath::from("a/b").is_relative());
    assert!(WindowsPath::from("/a").is_absolute());
    assert!(WindowsPath::from("\\a").is_absolute());
    // A drive prefix without a separator after it is not absolute.
    assert!(!WindowsPath::from("C:x").is_absolute());
    assert!(!PosixPath::from("").is_absolute());
}

/// A unified path holds components from any dialect and answers the
/// component-level queries.
#[test]
fn unified_path_operations() {
    let posix = PurePosixPath::from("/foo/bar");
    let windows = WindowsPath::from("\\foo\\bar");
    let from_posix = UnifiedPath::from(&posix);
    let from_windows = UnifiedPath::from(&windows);
    assert_eq!(from_posix, from_windows);
    assert!(from_posix.is_absolute());
    assert!(!from_posix.is_relative());
    assert_eq!(from_posix.file_name(), Some("bar"));
    let parent = from_posix.parent().unwrap();
    assert_eq!(parent.components(), &[Root, Normal("foo")]);
    let empty = UnifiedPath::from_iter(Vec::new());
    assert!(empty.parent().is_none());
    assert!(empty.file_name().is_none());
    // A unified parent strips exactly one component, even the root.
    let rooted = UnifiedPath::from_iter(vec![Root]);
    assert_eq!(rooted.parent().unwrap().components(), &[]);
    // Joining a relative path appends its components verbatim.
    let rel = UnifiedPath::from_iter(vec![Normal("x"), ParentDir]);
    assert_eq!(
        from_posix.join(&rel).components(),
        &[Root, Normal("foo"), Normal("bar"), Normal("x"), ParentDir],
    );
    // Joining an absolute path replaces everything.
    assert_eq!(rel.join(&from_posix), from_posix);
}

/// A component is a file name exactly when it is a normal segment.
#[test]
fn component_as_file_name() {
    assert_eq!(Component::Normal("a").as_file_name(), Some("a"));
    assert_eq!(Component::Root.as_file_name(), None);
    assert_eq!(Component::CurDir.as_file_name(), None);
    assert_eq!(Component::ParentDir.as_file_name(), None);
    assert_eq!(Component::Prefix("C:").as_file_name(), None);
}
