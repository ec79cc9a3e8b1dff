use pathlib::Component;
use pathlib::Component::CurDir;
use pathlib::Component::Normal;
use pathlib::Component::ParentDir;
use pathlib::Component::Root;
use pathlib::Components;
use pathlib::ParsablePath;
use pathlib::PosixPath;
use pathlib::PurePath;
use pathlib::UnifiedPath;
use pathlib::WindowsPath;

/// Collects components from the front, stopping at the first step that
/// emits nothing, as iterator collection does.
fn collect_forward<'a, P: ParsablePath>(mut it: Components<'a, P>) -> Vec<Component<'a>> {
    let mut v = Vec::new();
    while let Some(c) = it.next() {
        v.push(c);
    }
    v
}

/// Collects components from the back and reverses them into forward
/// order.
fn collect_backward<'a, P: ParsablePath>(mut it: Components<'a, P>) -> Vec<Component<'a>> {
    let mut v = Vec::new();
    while let Some(c) = it.next_back() {
        v.push(c);
    }
    v.reverse();
    v
}

#[test]
fn test_split_last_component() {
    let cases: [(&str, Option<&str>, Option<&str>); 26] = [
        ("/foo/bar", Some("/foo"), Some("bar")),
        ("/foo", Some("/"), Some("foo")),
        ("/", None, None),
        ("foo/bar", Some("foo"), Some("bar")),
        ("foo", Some(""), Some("foo")),
        ("", None, None),
        ("/usr/bin/", Some("/usr"), Some("bin")),
        ("tmp/foo.txt", Some("tmp"), Some("foo.txt")),
        ("foo.txt/.", Some(""), Some("foo.txt")),
        ("foo.txt/.//", Some(""), Some("foo.txt")),
        ("foo.txt/..", Some("foo.txt"), None),
        ("/", None, None),
        ("//", None, None),
        ("/./", None, None),
        (".", Some(""), None),
        ("..", Some(""), None),
        ("/.", None, None),
        ("/..", Some("/"), None),
        ("./..", Some("."), None),
        ("../..", Some(".."), None),
        ("../.", Some(""), None),
        ("./.", Some(""), None),
        ("a/.", Some(""), Some("a")),
        ("a//./", Some(""), Some("a")),
        ("/a/.", Some("/"), Some("a")),
        ("/a/.//.//", Some("/"), Some("a")),
    ];
    for &(path, parent, file_name) in cases.iter() {
        {
            let path_actual = PosixPath::from(path);
            let (parent_actual, file_name_actual) = (path_actual.parent(), path_actual.file_name());
            assert_eq!(
                (parent_actual.as_ref().map(|p| p.as_text()), file_name_actual),
                (parent, file_name),
                "parent() and file_name() of {path:?}",
            );
        }

        {
            let path_actual = WindowsPath::from(path);
            let (parent_actual, file_name_actual) = (path_actual.parent(), path_actual.file_name());
            assert_eq!(
                (parent_actual.as_ref().map(|p| p.as_text()), file_name_actual),
                (parent, file_name),
                "parent() and file_name() of {path:?}",
            );
        }

        {
            let posix_path_actual = PosixPath::from(path);
            let path_actual = UnifiedPath::from(&posix_path_actual);
            assert_eq!(
                path_actual.components(),
                &collect_forward(posix_path_actual.components())[..],
            );
            let file_name_actual = path_actual.file_name();
            assert_eq!(file_name_actual, file_name, "file_name() of {path:?}",);
        }

        {
            let windows_path_actual = WindowsPath::from(path);
            let path_actual = UnifiedPath::from(&windows_path_actual);
            assert_eq!(
                path_actual.components(),
                &collect_forward(windows_path_actual.components())[..],
            );
            let file_name_actual = path_actual.file_name();
            assert_eq!(file_name_actual, file_name, "file_name() of {path:?}",);
        }
    }
}

#[test]
fn test_components() {
    let cases: [(&str, &[Component<'static>]); 28] = [
        ("/foo/bar", &[Root, Normal("foo"), Normal("bar")]),
        ("/foo", &[Root, Normal("foo")]),
        ("/", &[Root]),
        ("foo/bar", &[Normal("foo"), Normal("bar")]),
        ("foo", &[Normal("foo")]),
        ("", &[]),
        ("/usr/bin/", &[Root, Normal("usr"), Normal("bin")]),
        ("tmp/foo.txt", &[Normal("tmp"), Normal("foo.txt")]),
        ("foo.txt/.", &[Normal("foo.txt")]),
        ("foo.txt/.//", &[Normal("foo.txt")]),
        ("foo.txt/..", &[Normal("foo.txt"), ParentDir]),
        ("/", &[Root]),
        ("//", &[Root]),
        ("/./", &[Root]),
        (".", &[CurDir]),
        ("..", &[ParentDir]),
        ("/.", &[Root]),
        ("/./.", &[Root]),
        ("/..", &[Root, ParentDir]),
        ("./..", &[CurDir, ParentDir]),
        ("../..", &[ParentDir, ParentDir]),
        ("../.", &[ParentDir]),
        ("./.", &[CurDir]),
        ("a/.", &[Normal("a")]),
        ("a//./", &[Normal("a")]),
        ("/a/.", &[Root, Normal("a")]),
        ("/a/.//.//", &[Root, Normal("a")]),
        ("/a/..//.//", &[Root, Normal("a"), ParentDir]),
    ];
    for &(path, components) in cases.iter() {
        {
            let path_actual = PosixPath::from(path);
            let components_actual = collect_forward(path_actual.components());
            assert_eq!(components_actual, components, "components() of {path:?}");
            let components_actual = collect_backward(path_actual.components());
            assert_eq!(
                components_actual, components,
                "components() of {path:?} in reverse",
            );
        }

        {
            let path_actual = WindowsPath::from(path);
            let components_actual = collect_forward(path_actual.components());
            assert_eq!(components_actual, components, "components() of {path:?}");
            let components_actual = collect_backward(path_actual.components());
            assert_eq!(
                components_actual, components,
                "components() of {path:?} in reverse",
            );
        }
    }
}

#[test]
fn join() {
    let cases: [(&str, &str, &str, &str); 10] = [
        ("/foo", "bar", "/foo/bar", "/foo\\bar"),
        ("/foo", "/bar", "/bar", "/bar"),
        ("/foo/", "bar", "/foo/bar", "/foo/bar"),
        ("/foo/", "/bar", "/bar", "/bar"),
        ("/foo", "/bar/", "/bar/", "/bar/"),
        ("/foo/", "/bar/", "/bar/", "/bar/"),
        ("/foo/", "/bar/baz", "/bar/baz", "/bar/baz"),
        ("/foo/", "bar/baz", "/foo/bar/baz", "/foo/bar/baz"),
        ("/foo/", "bar/baz/", "/foo/bar/baz/", "/foo/bar/baz/"),
        ("/foo/", "/bar/baz/", "/bar/baz/", "/bar/baz/"),
    ];
    for &(a, b, c, d) in cases.iter() {
        {
            let a = PosixPath::from(a);
            let b = PosixPath::from(b);
            let c = PosixPath::from(c);
            assert_eq!(a.join(&b), c, "{:?}.join({:?})", a, b);
            let mut joined = a.clone();
            joined.join_in_place(&b);
            assert_eq!(joined, c, "{:?}.join({:?}) in place", a, b);
            {
                let a = UnifiedPath::from(&a);
                let b = UnifiedPath::from(&b);
                let c = UnifiedPath::from(&c);
                assert_eq!(a.join(&b), c, "{:?}.join({:?})", a, b);
                let mut joined = a.clone();
                joined.join_in_place(&b);
                assert_eq!(joined, c, "{:?}.join({:?}) in place", a, b);
            }
        }
        {
            let a = WindowsPath::from(a);
            let b = WindowsPath::from(b);
            let d = WindowsPath::from(d);
            assert_eq!(a.join(&b), d, "{:?}.join({:?})", a, b);
            let mut joined = a.clone();
            joined.join_in_place(&b);
            assert_eq!(joined, d, "{:?}.join({:?}) in place", a, b);
            {
                let a = UnifiedPath::from(&a);
                let b = UnifiedPath::from(&b);
                let c = UnifiedPath::from(&d);
                assert_eq!(a.join(&b), c, "{:?}.join({:?})", a, b);
                let mut joined = a.clone();
                joined.join_in_place(&b);
                assert_eq!(joined, c, "{:?}.join({:?}) in place", a, b);
            }
        }
    }
}

#[test]
fn extension() {
    let cases: [(&str, Option<&str>, Option<&str>); 29] = [
        ("/foo/bar.txt", Some("bar"), Some("txt")),
        ("/foo/bar", Some("bar"), None),
        ("/foo/.bar", Some(".bar"), None),
        ("/foo/.bar.txt", Some(".bar"), Some("txt")),
        (".", None, None),
        ("..", None, None),
        ("/.", None, None),
        ("/..", None, None),
        ("foo/.", Some("foo"), None),
        ("foo/..", None, None),
        ("/foo/.", Some("foo"), None),
        ("/foo/..", None, None),
        ("./foo/.", Some("foo"), None),
        ("./foo/..", None, None),
        ("../foo/.", Some("foo"), None),
        ("../foo/..", None, None),
        ("foo", Some("foo"), None),
        ("foo.", Some("foo"), Some("")),
        ("foo..", Some("foo."), Some("")),
        ("foo...", Some("foo.."), Some("")),
        ("foo.txt", Some("foo"), Some("txt")),
        ("foo.txt.", Some("foo.txt"), Some("")),
        ("foo.txt..", Some("foo.txt."), Some("")),
        ("foo.txt...", Some("foo.txt.."), Some("")),
        ("/foo/bar.", Some("bar"), Some("")),
        ("/foo/bar.txt.", Some("bar.txt"), Some("")),
        ("/foo/bar.txt..", Some("bar.txt."), Some("")),
        ("/foo/bar.txt...", Some("bar.txt.."), Some("")),
        ("/foo/bar.txt", Some("bar"), Some("txt")),
    ];
    for &(path, stem, extension) in cases.iter() {
        {
            let path = PosixPath::from(path);
            assert_eq!(
                (path.file_stem(), path.extension()),
                (stem, extension),
                "file_stem() and extension() of {path:?}",
            );
        }

        {
            let path = WindowsPath::from(path);
            assert_eq!(
                (path.file_stem(), path.extension()),
                (stem, extension),
                "file_stem() and extension() of {path:?}",
            );
        }
    }
}

#[test]
fn test_unified_path() {
    let path = UnifiedPath::from_iter(vec![
        Component::Root,
        Component::Normal("foo"),
        Component::Normal("bar"),
    ]);
    assert_eq!(
        path.components(),
        &[
            Component::Root,
            Component::Normal("foo"),
            Component::Normal("bar")
        ]
    );
}
