use import_closure::context::{find_git_root, load_gitignore, marker_probes, ProjectContext};
use import_closure::error::WalkError;
use import_closure::path::FilePath;
use import_closure::snapshot::{EntryKind, Snapshot};

fn p(s: &str) -> FilePath {
    FilePath::parse(s)
}

fn context_with_rules(rules: Option<&str>) -> ProjectContext {
    let mut fs = Snapshot::new();
    fs.record(&p("/repo/.git"), EntryKind::Directory);
    ProjectContext::new(&p("/repo/src/main.py"), false, &fs, rules).unwrap()
}

#[test]
fn root_is_nearest_directory_with_marker() {
    let mut fs = Snapshot::new();
    fs.record(&p("/home/.git"), EntryKind::Directory);
    fs.record(&p("/home/u/repo/.git"), EntryKind::Directory);
    let root = find_git_root(&p("/home/u/repo/src/deep/a.py"), false, &fs);
    assert_eq!(root, Ok(p("/home/u/repo")));
}

#[test]
fn root_search_starts_at_a_directory_itself() {
    let mut fs = Snapshot::new();
    fs.record(&p("/repo/.git"), EntryKind::Directory);
    assert_eq!(find_git_root(&p("/repo"), true, &fs), Ok(p("/repo")));
    assert_eq!(find_git_root(&p("/repo"), false, &fs), Err(WalkError::NotARepository));
}

#[test]
fn marker_must_be_a_directory() {
    let mut fs = Snapshot::new();
    fs.record(&p("/repo/.git"), EntryKind::File);
    assert_eq!(find_git_root(&p("/repo/a.py"), false, &fs), Err(WalkError::NotARepository));
}

#[test]
fn no_marker_is_not_a_repository() {
    let fs = Snapshot::new();
    assert_eq!(find_git_root(&p("/a/b/c.py"), false, &fs), Err(WalkError::NotARepository));
}

#[test]
fn file_without_parent_has_no_parent() {
    let fs = Snapshot::new();
    assert_eq!(find_git_root(&p("/"), false, &fs), Err(WalkError::NoParent));
    assert_eq!(find_git_root(&p(""), false, &fs), Err(WalkError::NoParent));
}

#[test]
fn marker_probes_walk_upwards() {
    let probes: Vec<String> =
        marker_probes(&p("/a/b/c.py"), false).iter().map(|x| x.render()).collect();
    assert_eq!(probes, vec!["/a/b/.git", "/a/.git", "/.git"]);
    assert!(marker_probes(&p("/"), false).is_empty());
}

#[test]
fn error_messages() {
    assert_eq!(WalkError::NotARepository.message(), "Not in a git repository");
    assert_eq!(WalkError::NoParent.message(), "No parent directory found");
    assert_eq!(WalkError::Io.message(), "A file of the closure could not be read");
    assert_eq!(WalkError::OutOfTurn.message(), "The event does not answer the action");
}

#[test]
fn path_outside_the_repository_is_ignored() {
    let ctx = context_with_rules(None);
    assert!(ctx.is_ignored(Some(&p("/etc/passwd")), false));
    assert!(ctx.is_ignored(Some(&p("/repository/a.py")), false));
    assert!(ctx.is_ignored(Some(&p("repo/a.py")), false));
    assert!(!ctx.is_ignored(Some(&p("/repo/a.py")), false));
    assert!(!ctx.is_ignored(Some(&p("/repo")), true));
}

#[test]
fn unresolved_path_is_ignored() {
    let ctx = context_with_rules(None);
    assert!(ctx.is_ignored(None, false));
}

#[test]
fn rule_excludes_matching_file() {
    let ctx = context_with_rules(Some("*.log\nbuild/\n"));
    assert!(ctx.is_ignored(Some(&p("/repo/out.log")), false));
    assert!(ctx.is_ignored(Some(&p("/repo/src/deep/out.log")), false));
    assert!(!ctx.is_ignored(Some(&p("/repo/src/main.py")), false));
}

#[test]
fn rule_on_a_directory_excludes_what_lies_below() {
    let ctx = context_with_rules(Some("build/\nnode_modules\n"));
    assert!(ctx.is_ignored(Some(&p("/repo/build/gen/a.py")), false));
    assert!(ctx.is_ignored(Some(&p("/repo/node_modules/x/index.js")), false));
    assert!(ctx.is_ignored(Some(&p("/repo/build")), true));
    assert!(!ctx.is_ignored(Some(&p("/repo/build")), false));
}

#[test]
fn later_negation_wins() {
    let ctx = context_with_rules(Some("*.py\n!keep.py\n"));
    assert!(ctx.is_ignored(Some(&p("/repo/a.py")), false));
    assert!(!ctx.is_ignored(Some(&p("/repo/keep.py")), false));
}

#[test]
fn anchored_rule_matches_at_the_root_only() {
    let ctx = context_with_rules(Some("/top.py\n"));
    assert!(ctx.is_ignored(Some(&p("/repo/top.py")), false));
    assert!(!ctx.is_ignored(Some(&p("/repo/src/top.py")), false));
}

#[test]
fn comments_blank_lines_and_line_endings() {
    let ctx = context_with_rules(Some("\u{feff}# a comment\r\n\r\nsecret.py\r\n"));
    assert!(ctx.is_ignored(Some(&p("/repo/secret.py")), false));
    assert!(!ctx.is_ignored(Some(&p("/repo/# a comment")), false));
}

#[test]
fn absent_rule_file_ignores_nothing() {
    let rules = load_gitignore(None);
    assert!(rules.is_empty());
    assert!(!load_gitignore(Some("a")).is_empty());
    let ctx = context_with_rules(None);
    assert!(!ctx.is_ignored(Some(&p("/repo/anything.log")), false));
}

#[test]
fn context_carries_root_and_root_alias() {
    let ctx = context_with_rules(None);
    assert_eq!(ctx.git_root(), &p("/repo"));
    assert_eq!(ctx.path_aliases().resolve_path("@/x", &p("/other")), Some(p("/repo/x")));
    let fs = Snapshot::new();
    let none = ProjectContext::new(&p("/repo/a.py"), false, &fs, None);
    assert_eq!(none.err(), Some(WalkError::NotARepository));
}
