use import_closure::context::ProjectContext;
use import_closure::error::WalkError;
use import_closure::path::FilePath;
use import_closure::snapshot::{EntryKind, Snapshot};
use import_closure::walker::{Action, Event, Walker};

struct Tree {
    files: Vec<(String, String)>,
    dirs: Vec<String>,
    reads: Vec<String>,
}

fn p(s: &str) -> FilePath {
    FilePath::parse(s)
}

fn tree(files: &[(&str, &str)], dirs: &[&str]) -> Tree {
    Tree {
        files: files.iter().map(|(a, b)| (a.to_string(), b.to_string())).collect(),
        dirs: dirs.iter().map(|d| d.to_string()).collect(),
        reads: Vec::new(),
    }
}

fn collapse(path: &FilePath) -> String {
    let text = path.render();
    let mut parts: Vec<&str> = Vec::new();
    for part in text.split('/') {
        if part == ".." {
            parts.pop();
        } else if !part.is_empty() {
            parts.push(part);
        }
    }
    format!("/{}", parts.join("/"))
}

fn kind(tree: &Tree, path: &FilePath) -> EntryKind {
    let name = collapse(path);
    if tree.dirs.iter().any(|d| *d == name) {
        EntryKind::Directory
    } else if tree.files.iter().any(|(f, _)| *f == name) {
        EntryKind::File
    } else {
        EntryKind::Missing
    }
}

fn answer(tree: &mut Tree, action: &Action) -> Event {
    match action {
        Action::Canonicalize(path) => match kind(tree, path) {
            EntryKind::Missing => Event::Failed,
            k => Event::Resolved { canonical: p(&collapse(path)), is_dir: k == EntryKind::Directory },
        },
        Action::Read(path) => {
            let name = collapse(path);
            tree.reads.push(name.clone());
            match tree.files.iter().find(|(f, _)| *f == name) {
                Some((_, text)) => Event::Content(text.clone()),
                None => Event::Failed,
            }
        }
        Action::Probe(paths) => {
            let mut fs = Snapshot::new();
            for path in paths {
                fs.record(path, kind(tree, path));
            }
            Event::Probed(fs)
        }
        Action::Done => Event::Failed,
    }
}

fn context(rules: Option<&str>) -> ProjectContext {
    let mut fs = Snapshot::new();
    fs.record(&p("/repo/.git"), EntryKind::Directory);
    ProjectContext::new(&p("/repo"), true, &fs, rules).unwrap()
}

fn walk(tree: &mut Tree, rules: Option<&str>, entry: &str) -> Result<Vec<String>, WalkError> {
    let mut walker = Walker::new(context(rules), p(entry));
    let mut event = Event::Start;
    for _ in 0..10_000 {
        let (next, result) = walker.step(event);
        walker = next;
        match result? {
            Action::Done => {
                assert!(walker.is_done());
                return Ok(walker.visited().iter().map(|x| x.render()).collect());
            }
            action => event = answer(tree, &action),
        }
    }
    panic!("the walk did not end");
}

#[test]
fn visiting_twice_changes_nothing() {
    let mut t = tree(
        &[
            ("/repo/a.py", "import b\nimport b\nfrom c import x"),
            ("/repo/b.py", ""),
            ("/repo/c.py", "import b"),
        ],
        &[],
    );
    let visited = walk(&mut t, None, "/repo/a.py").unwrap();
    assert_eq!(visited, vec!["/repo/a.py", "/repo/b.py", "/repo/c.py"]);
    assert_eq!(t.reads, vec!["/repo/a.py", "/repo/b.py", "/repo/c.py"]);
}

#[test]
fn cycle_is_walked_once() {
    let mut t = tree(
        &[("/repo/a.js", "import b from './b'"), ("/repo/b.js", "import a from './a'")],
        &[],
    );
    let visited = walk(&mut t, None, "/repo/a.js").unwrap();
    assert_eq!(visited, vec!["/repo/a.js", "/repo/b.js"]);
    assert_eq!(t.reads.len(), 2);
}

#[test]
fn self_import_is_walked_once() {
    let mut t = tree(&[("/repo/a.py", "from .a import a")], &[]);
    assert_eq!(walk(&mut t, None, "/repo/a.py").unwrap(), vec!["/repo/a.py"]);
}

#[test]
fn ignored_file_is_neither_visited_nor_read() {
    let mut t = tree(
        &[
            ("/repo/a.py", "import secret\nimport open"),
            ("/repo/secret.py", "import hidden"),
            ("/repo/hidden.py", ""),
            ("/repo/open.py", ""),
        ],
        &[],
    );
    let visited = walk(&mut t, Some("secret.py\n"), "/repo/a.py").unwrap();
    assert_eq!(visited, vec!["/repo/a.py", "/repo/open.py"]);
    assert!(!t.reads.contains(&"/repo/secret.py".to_string()));
    assert!(!t.reads.contains(&"/repo/hidden.py".to_string()));
}

#[test]
fn file_outside_the_repository_is_not_visited() {
    let mut t = tree(
        &[
            ("/repo/src/a.js", "import x from '../../other/x'\nimport y from '/other/y'"),
            ("/other/x.js", "import z from './z'"),
            ("/other/y.js", ""),
            ("/other/z.js", ""),
        ],
        &[],
    );
    let visited = walk(&mut t, None, "/repo/src/a.js").unwrap();
    assert_eq!(visited, vec!["/repo/src/a.js"]);
    assert_eq!(t.reads, vec!["/repo/src/a.js"]);
}

#[test]
fn package_imports_leave_the_closure() {
    let mut t = tree(&[("/repo/app.py", "import numpy\nimport local"), ("/repo/local.py", "")], &[]);
    let visited = walk(&mut t, None, "/repo/app.py").unwrap();
    assert_eq!(visited, vec!["/repo/app.py", "/repo/local.py"]);
}

#[test]
fn first_import_is_taken_up_first() {
    let mut t = tree(
        &[
            ("/repo/a.py", "import b\nimport c"),
            ("/repo/b.py", "import d"),
            ("/repo/c.py", ""),
            ("/repo/d.py", ""),
        ],
        &[],
    );
    let visited = walk(&mut t, None, "/repo/a.py").unwrap();
    assert_eq!(visited, vec!["/repo/a.py", "/repo/b.py", "/repo/d.py", "/repo/c.py"]);
}

#[test]
fn index_file_of_a_directory_is_followed() {
    let mut t = tree(
        &[("/repo/src/app.tsx", "import C from './comp'"), ("/repo/src/comp/index.tsx", "")],
        &["/repo/src/comp"],
    );
    let visited = walk(&mut t, None, "/repo/src/app.tsx").unwrap();
    assert_eq!(visited, vec!["/repo/src/app.tsx", "/repo/src/comp/index.tsx"]);
}

#[test]
fn missing_entry_file_is_an_error() {
    let mut t = tree(&[], &[]);
    assert_eq!(walk(&mut t, None, "/repo/none.py"), Err(WalkError::Io));
}

#[test]
fn file_without_known_language_is_visited_but_imports_nothing() {
    let mut t = tree(&[("/repo/notes.txt", "import a from './a'"), ("/repo/a.js", "")], &[]);
    assert_eq!(walk(&mut t, None, "/repo/notes.txt").unwrap(), vec!["/repo/notes.txt"]);
}

#[test]
fn event_out_of_turn_is_refused_and_changes_nothing() {
    let walker = Walker::new(context(None), p("/repo/a.py"));
    let (walker, result) = walker.step(Event::Content("x".to_string()));
    assert_eq!(result.err(), Some(WalkError::OutOfTurn));
    let (walker, result) = walker.step(Event::Start);
    assert!(matches!(result, Ok(Action::Canonicalize(_))));
    let (walker, result) = walker.step(Event::Probed(Snapshot::new()));
    assert_eq!(result.err(), Some(WalkError::OutOfTurn));
    let (walker, result) =
        walker.step(Event::Resolved { canonical: p("/repo/a.py"), is_dir: false });
    assert!(matches!(result, Ok(Action::Read(_))));
    assert_eq!(walker.visited(), vec![p("/repo/a.py")]);
    let (walker, result) = walker.step(Event::Failed);
    assert_eq!(result.err(), Some(WalkError::Io));
    assert!(!walker.is_done());
}

#[test]
fn finished_walk_takes_no_more_events() {
    let walker = Walker::new(context(None), p("/repo/a.py"));
    let (walker, _) = walker.step(Event::Start);
    let (walker, result) = walker.step(Event::Resolved { canonical: p("/elsewhere"), is_dir: false });
    assert!(matches!(result, Ok(Action::Done)));
    assert!(walker.visited().is_empty());
    let (_, result) = walker.step(Event::Start);
    assert_eq!(result.err(), Some(WalkError::OutOfTurn));
}
