use tome::files::{fmt_io_err, fold_case, read_dir, Entry, IoKind, Watches};

fn file(name: &str) -> Entry {
    Entry { name: name.to_string(), dir: false }
}

fn folder(name: &str) -> Entry {
    Entry { name: name.to_string(), dir: true }
}

fn names(v: &[Entry]) -> Vec<&str> {
    v.iter().map(|e| e.name.as_str()).collect()
}

#[test]
fn read_dir_filters_dotfiles_and_sorts_dirs_first_then_name() {
    let v = read_dir(vec![folder(".git"), file(".DS_Store"), file("b.txt"), file("a.txt"), folder("zdir"), folder("adir")]);
    assert_eq!(names(&v), vec!["adir", "zdir", "a.txt", "b.txt"]);
    assert!(v[0].dir);
    assert!(!v[2].dir);
}

#[test]
fn read_dir_sorts_mixed_case_names_like_localecompare_not_ordinal() {
    let v = read_dir(vec![file("Banana.txt"), file("apple.txt"), file("Zebra.txt"), file("mango.txt")]);
    assert_eq!(names(&v), vec!["apple.txt", "Banana.txt", "mango.txt", "Zebra.txt"]);
}

#[test]
fn read_dir_reports_enoent_for_a_missing_directory() {
    let err = fmt_io_err(IoKind::NotFound, "no such file or directory", "/definitely/does/not/exist/anywhere");
    assert_eq!(err, "ENOENT: no such file or directory, '/definitely/does/not/exist/anywhere'");
}

#[test]
fn errors_are_told_by_their_code() {
    assert_eq!(fmt_io_err(IoKind::AlreadyExists, "file exists", "/a"), "EEXIST: file exists, '/a'");
    assert_eq!(fmt_io_err(IoKind::PermissionDenied, "denied", "/a"), "EACCES: denied, '/a'");
    assert_eq!(fmt_io_err(IoKind::NotADirectory, "not a directory", "/a"), "ENOTDIR: not a directory, '/a'");
    assert_eq!(fmt_io_err(IoKind::Other, "broken", "/a"), "broken, '/a'");
}

#[test]
fn names_that_differ_in_case_alone_have_one_order() {
    assert_eq!(fold_case("ReadMe"), "readme");
    assert_eq!(names(&read_dir(vec![file("a"), file("A")])), names(&read_dir(vec![file("A"), file("a")])));
}

#[test]
fn watch_with_refcounts_and_unwatch_only_removes_at_zero() {
    let mut w = Watches::new();
    let path = "/ws/dir";

    assert!(w.watch_with(path, true));
    assert!(w.watch_with(path, true));
    assert_eq!(w.count(path), 2);

    assert!(!w.unwatch(path));
    assert_eq!(w.count(path), 1);

    assert!(w.unwatch(path));
    assert_eq!(w.count(path), 0);

    assert!(!w.unwatch(path));
    assert_eq!(w.count(path), 0);
}

#[test]
fn watch_with_returns_false_for_an_unwatchable_path() {
    let mut w = Watches::new();
    assert!(!w.watch_with("/definitely/does/not/exist/at/all/xyz", false));
    assert_eq!(w.count("/definitely/does/not/exist/at/all/xyz"), 0);
}

#[test]
fn a_path_that_is_watched_is_not_registered_again() {
    let mut w = Watches::new();
    assert!(w.watch_with("/ws", true));
    assert!(w.watch_with("/ws", false));
    assert_eq!(w.count("/ws"), 2);
    assert!(w.watch_with("/other", true));
    assert_eq!(w.count("/other"), 1);
}
