use import_closure::path::FilePath;

#[test]
fn parse_drops_empty_and_dot_components() {
    let p = FilePath::parse("/repo//src/./a.py");
    assert_eq!(p.render(), "/repo/src/a.py");
    assert!(p.is_absolute());
}

#[test]
fn parse_keeps_parent_components() {
    let p = FilePath::parse("src/../lib/x.ts");
    assert_eq!(p.render(), "src/../lib/x.ts");
    assert!(!p.is_absolute());
}

#[test]
fn join_relative_continues_base() {
    let base = FilePath::parse("/repo/src");
    let joined = base.join(&FilePath::parse("./util"));
    assert_eq!(joined.render(), "/repo/src/util");
}

#[test]
fn join_absolute_replaces_base() {
    let base = FilePath::parse("/repo/src");
    let joined = base.join(&FilePath::parse("/etc/passwd"));
    assert_eq!(joined.render(), "/etc/passwd");
}

#[test]
fn parent_and_starts_with() {
    let a = FilePath::parse("/repo/src/a.py");
    assert_eq!(a.parent(), Some(FilePath::parse("/repo/src")));
    assert_eq!(FilePath::parse("/").parent(), None);
    assert_eq!(FilePath::parse("a").parent(), Some(FilePath::parse("")));
    assert!(a.starts_with(&FilePath::parse("/repo")));
    assert!(a.starts_with(&a));
    assert!(!a.starts_with(&FilePath::parse("/rep")));
    assert!(!a.starts_with(&FilePath::parse("repo")));
}

#[test]
fn relative_to_strips_the_base() {
    let a = FilePath::parse("/repo/src/a.py");
    assert_eq!(a.relative_to(&FilePath::parse("/repo")), Some(FilePath::parse("src/a.py")));
    assert_eq!(a.relative_to(&a).map(|x| x.render()), Some(String::new()));
    assert_eq!(a.relative_to(&FilePath::parse("/other")), None);
}

#[test]
fn extension_follows_the_last_dot() {
    let ext = |s: &str| FilePath::parse(s).extension().map(|e| e.into_iter().collect::<String>());
    assert_eq!(ext("a/b.tar.gz"), Some("gz".to_string()));
    assert_eq!(ext("a/.hidden"), None);
    assert_eq!(ext("a/name"), None);
    assert_eq!(ext("a/.."), None);
    assert_eq!(ext("a/b."), Some(String::new()));
    assert_eq!(ext(""), None);
}

#[test]
fn same_and_clone_agree_with_equality() {
    let a = FilePath::parse("/x/./y");
    let b = FilePath::parse("/x//y/");
    assert!(a.same(&b));
    assert_eq!(a.clone(), b);
    assert!(!a.same(&FilePath::parse("x/y")));
}
