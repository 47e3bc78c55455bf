use myfind::{form_predicate, Flag, Answer, Entry, Error, FileKind, IoFailure, Predicate, Step, Walk};

const NOW: i64 = 1_700_000_000;

/// A node of an in-memory tree: its path, what metadata says without and
/// with following links, its inode, and the paths that listing it gives.
struct Node {
    path: &'static str,
    kind: FileKind,
    followed: Option<FileKind>,
    ino: u64,
    children: Vec<&'static str>,
}

fn node(path: &'static str, kind: FileKind, ino: u64, children: Vec<&'static str>) -> Node {
    Node { path, kind, followed: Some(kind), ino, children }
}

fn find<'a>(tree: &'a [Node], path: &str) -> Option<&'a Node> {
    tree.iter().find(|n| n.path == path)
}

fn last_component(path: &str) -> &str {
    path.rsplit('/').next().unwrap()
}

fn glob_prefix(pattern: &str, name: &str) -> bool {
    match pattern.strip_suffix('*') {
        Some(prefix) => name.starts_with(prefix),
        None => pattern == name,
    }
}

fn evaluate(p: &Predicate, e: &Entry, path: &str) -> bool {
    let mut step = p.next_step(e, NOW, 0);
    loop {
        step = match step {
            Step::Decided(b) => return b,
            Step::Unreadable => return false,
            Step::MatchName(k, pattern) => {
                p.resume(e, NOW, k, Answer::Matched(glob_prefix(&pattern, last_component(path))))
            }
            Step::RunCommand(k, _) => p.resume(e, NOW, k, Answer::Exited(true)),
        }
    }
}

/// Walks `tree` from `path` as the program does, recording matches and
/// diagnostics, and counting how often each directory is listed.
fn crawl(
    tree: &[Node],
    path: &str,
    p: &Predicate,
    walk: &mut Walk,
    out: &mut Vec<String>,
    errors: &mut Vec<Error>,
    listed: &mut Vec<u64>,
) -> Result<(), IoFailure> {
    let n = find(tree, path).ok_or_else(missing)?;
    let kind = if walk.follows_symlinks() { n.followed.ok_or_else(missing)? } else { n.kind };
    let e = Entry { kind, ino: n.ino, modified: Some(NOW), text: path.to_string() };
    if evaluate(p, &e, path) {
        out.push(path.to_string());
    }
    if walk.should_descend(&e) {
        listed.push(n.ino);
        for child in &n.children {
            if let Err(f) = crawl(tree, child, p, walk, out, errors, listed) {
                errors.push(walk.child_failed(f, child.to_string()));
            }
        }
    }
    Ok(())
}

fn missing() -> IoFailure {
    IoFailure { not_found: true, raw_os_error: Some(2), message: "gone".to_string(), loop_errno: 40 }
}

fn run(tree: &[Node], root: &str, p: &Predicate, follow: bool) -> (Vec<String>, Vec<Error>, Vec<u64>, bool) {
    let mut walk = Walk::new(follow);
    let (mut out, mut errors, mut listed) = (Vec::new(), Vec::new(), Vec::new());
    crawl(tree, root, p, &mut walk, &mut out, &mut errors, &mut listed).unwrap();
    (out, errors, listed, walk.had_error())
}

fn sample_tree() -> Vec<Node> {
    vec![
        node("d", FileKind::Directory, 1, vec!["d/a.txt", "d/sub"]),
        node("d/a.txt", FileKind::Regular, 2, vec![]),
        node("d/sub", FileKind::Directory, 3, vec!["d/sub/b.txt"]),
        node("d/sub/b.txt", FileKind::Regular, 4, vec![]),
    ]
}

fn entry(kind: FileKind, ino: u64) -> Entry {
    Entry { kind, ino, modified: None, text: "x".to_string() }
}

#[test]
fn end_to_end_type_regular() {
    let p = form_predicate(vec![Flag::Type(FileKind::Regular)], false);
    let (out, errors, _, failed) = run(&sample_tree(), "d", &p, false);
    assert_eq!(out, vec!["d/a.txt".to_string(), "d/sub/b.txt".to_string()]);
    assert!(errors.is_empty());
    assert!(!failed);
}

#[test]
fn end_to_end_name_pattern() {
    let p = form_predicate(vec![Flag::Name("a*".to_string())], false);
    let (out, _, _, _) = run(&sample_tree(), "d", &p, false);
    assert_eq!(out, vec!["d/a.txt".to_string()]);
}

#[test]
fn end_to_end_everything_in_pre_order() {
    let p = form_predicate(Vec::new(), false);
    let (out, _, _, _) = run(&sample_tree(), "d", &p, false);
    assert_eq!(out, vec!["d", "d/a.txt", "d/sub", "d/sub/b.txt"]);
}

#[test]
fn cycle_through_link_is_entered_once_when_following() {
    let tree = vec![
        node("r", FileKind::Directory, 10, vec!["r/s", "r/up"]),
        node("r/s", FileKind::Directory, 11, vec!["r/s/back"]),
        Node { path: "r/up", kind: FileKind::Symlink, followed: Some(FileKind::Directory), ino: 10, children: vec!["r/up/s"] },
        Node { path: "r/s/back", kind: FileKind::Symlink, followed: Some(FileKind::Directory), ino: 10, children: vec![] },
        Node { path: "r/up/s", kind: FileKind::Directory, followed: Some(FileKind::Directory), ino: 11, children: vec![] },
    ];
    let p = form_predicate(Vec::new(), false);
    let (out, _, listed, _) = run(&tree, "r", &p, true);
    assert_eq!(listed, vec![10, 11]);
    assert_eq!(out, vec!["r", "r/s", "r/s/back", "r/up"]);
}

#[test]
fn link_to_directory_is_listed_not_descended_without_following() {
    let tree = vec![
        node("r", FileKind::Directory, 10, vec!["r/ln"]),
        Node { path: "r/ln", kind: FileKind::Symlink, followed: Some(FileKind::Directory), ino: 20, children: vec!["r/ln/inner"] },
        node("r/ln/inner", FileKind::Regular, 21, vec![]),
    ];
    let p = form_predicate(Vec::new(), false);
    let (out, _, listed, _) = run(&tree, "r", &p, false);
    assert_eq!(out, vec!["r", "r/ln"]);
    assert_eq!(listed, vec![10]);
    let (followed, _, _, _) = run(&tree, "r", &p, true);
    assert_eq!(followed, vec!["r", "r/ln", "r/ln/inner"]);
}

#[test]
fn dangling_child_is_reported_and_siblings_go_on() {
    let tree = vec![
        node("r", FileKind::Directory, 10, vec!["r/dangling", "r/ok"]),
        Node { path: "r/dangling", kind: FileKind::Symlink, followed: None, ino: 30, children: vec![] },
        node("r/ok", FileKind::Regular, 31, vec![]),
    ];
    let p = form_predicate(vec![Flag::Type(FileKind::Regular)], false);
    let (out, errors, _, failed) = run(&tree, "r", &p, true);
    assert_eq!(out, vec!["r/ok"]);
    assert_eq!(errors, vec![Error::NoSuchFile("r/dangling".to_string())]);
    assert_eq!(errors[0].message(), "'r/dangling': No such file or directory");
    assert!(failed);
}

#[test]
fn same_inode_is_descended_once() {
    let mut w = Walk::new(false);
    assert!(w.should_descend(&entry(FileKind::Directory, 7)));
    assert!(!w.should_descend(&entry(FileKind::Directory, 7)));
    assert!(w.should_descend(&entry(FileKind::Directory, 8)));
    assert!(!w.should_descend(&entry(FileKind::Regular, 9)));
    assert!(!w.should_descend(&entry(FileKind::Symlink, 10)));
    assert!(!w.had_error());
}

#[test]
fn visited_sets_are_not_shared_between_walks() {
    let mut a = Walk::new(true);
    let mut b = Walk::new(true);
    assert!(a.should_descend(&entry(FileKind::Directory, 5)));
    assert!(b.should_descend(&entry(FileKind::Directory, 5)));
    assert!(a.follows_symlinks());
    assert!(!Walk::new(false).follows_symlinks());
}

#[test]
fn child_failure_marks_the_walk() {
    let mut w = Walk::new(false);
    let f = IoFailure { not_found: false, raw_os_error: Some(40), message: "loop".to_string(), loop_errno: 40 };
    assert_eq!(w.child_failed(f, "r/x".to_string()), Error::TooManySymlinks("r/x".to_string()));
    assert!(w.had_error());
}
