use import_closure::aliases::PathAliases;
use import_closure::context::ProjectContext;
use import_closure::path::FilePath;
use import_closure::resolve::{
    get_imports, import_probes, js_candidates, resolve_js_import, resolve_python_import,
};
use import_closure::snapshot::{EntryKind, Snapshot};

fn p(s: &str) -> FilePath {
    FilePath::parse(s)
}

fn rendered(v: &[FilePath]) -> Vec<String> {
    v.iter().map(|x| x.render()).collect()
}

fn repo_context() -> ProjectContext {
    let mut fs = Snapshot::new();
    fs.record(&p("/repo/.git"), EntryKind::Directory);
    ProjectContext::new(&p("/repo"), true, &fs, None).unwrap()
}

#[test]
fn extension_inference_picks_the_existing_file() {
    let ctx = repo_context();
    let mut fs = Snapshot::new();
    fs.record(&p("/repo/D/util.ts"), EntryKind::File);
    let found = get_imports(&p("/repo/D/main.ts"), "import { u } from './util'", &ctx, &fs);
    assert_eq!(rendered(&found), vec!["/repo/D/util.ts".to_string()]);
}

#[test]
fn index_inference_looks_inside_a_directory() {
    let ctx = repo_context();
    let mut fs = Snapshot::new();
    fs.record(&p("/repo/D/comp"), EntryKind::Directory);
    fs.record(&p("/repo/D/comp/index.tsx"), EntryKind::File);
    let found = get_imports(&p("/repo/D/main.tsx"), "import C from './comp'", &ctx, &fs);
    assert_eq!(rendered(&found), vec!["/repo/D/comp/index.tsx".to_string()]);
}

#[test]
fn index_candidates_need_a_directory() {
    let ctx = repo_context();
    let mut fs = Snapshot::new();
    fs.record(&p("/repo/D/comp/index.tsx"), EntryKind::File);
    let found = get_imports(&p("/repo/D/main.tsx"), "import C from './comp'", &ctx, &fs);
    assert!(found.is_empty());
}

#[test]
fn relative_python_import_resolves_beside_the_file() {
    let got = resolve_python_import(".sub", &p("pkg"), &p("/repo"));
    assert_eq!(got, Some(p("pkg/sub.py")));
    let ctx = repo_context();
    let mut fs = Snapshot::new();
    fs.record(&p("/repo/pkg/sub.py"), EntryKind::File);
    let found = get_imports(&p("/repo/pkg/mod.py"), "from .sub import x", &ctx, &fs);
    assert_eq!(rendered(&found), vec!["/repo/pkg/sub.py".to_string()]);
}

#[test]
fn absolute_python_import_resolves_below_the_root() {
    let got = resolve_python_import("a.b.c", &p("/repo/pkg"), &p("/repo"));
    assert_eq!(got.map(|x| x.render()), Some("/repo/a/b/c.py".to_string()));
    let ctx = repo_context();
    let mut fs = Snapshot::new();
    fs.record(&p("/repo/a/b/c.py"), EntryKind::File);
    let found = get_imports(&p("/repo/pkg/mod.py"), "import a.b.c", &ctx, &fs);
    assert_eq!(rendered(&found), vec!["/repo/a/b/c.py".to_string()]);
    let nothing = get_imports(&p("/repo/pkg/mod.py"), "import a.b.c", &ctx, &Snapshot::new());
    assert!(nothing.is_empty());
}

#[test]
fn unresolvable_import_is_dropped() {
    let ctx = repo_context();
    let mut fs = Snapshot::new();
    fs.record(&p("/repo/pkg/mod.py"), EntryKind::File);
    let found = get_imports(&p("/repo/pkg/mod.py"), "import numpy\nimport os", &ctx, &fs);
    assert!(found.is_empty());
    let candidate = resolve_python_import("numpy", &p("/repo/pkg"), &p("/repo"));
    assert_eq!(candidate.map(|x| x.render()), Some("/repo/numpy.py".to_string()));
}

#[test]
fn alias_resolution_starts_at_the_alias_root() {
    let aliases = PathAliases::new(&p("/repo"));
    let got = aliases.resolve_path("@/lib/x", &p("/repo/src"));
    assert_eq!(got, Some(p("/repo/lib/x")));
}

#[test]
fn alias_rule_falls_back_to_relative_marker() {
    let aliases = PathAliases::new(&p("/repo"));
    assert_eq!(aliases.resolve_path("./x", &p("/repo/src")), Some(p("/repo/src/x")));
    assert_eq!(aliases.resolve_path("../x", &p("/repo/src")), Some(p("/repo/src/../x")));
    assert_eq!(aliases.resolve_path("react", &p("/repo/src")), None);
    assert_eq!(aliases.resolve_path("lib/x", &p("/repo/src")), None);
    assert_eq!(aliases.resolve_path("@", &p("/repo/src")), None);
}

#[test]
fn alias_table_takes_more_aliases() {
    let aliases = PathAliases::new(&p("/repo")).with_alias("~", &p("/repo/src"));
    assert_eq!(aliases.resolve_path("~/a/b", &p("/x")), Some(p("/repo/src/a/b")));
    assert_eq!(aliases.resolve_path("@/a", &p("/x")), Some(p("/repo/a")));
    let kept = aliases.with_alias("@", &p("/elsewhere"));
    assert_eq!(kept.resolve_path("@/a", &p("/x")), Some(p("/repo/a")));
    assert_eq!(kept.resolve_path("~/a", &p("/x")), Some(p("/repo/src/a")));
}

#[test]
fn script_fallback_joins_onto_the_file_directory() {
    assert_eq!(resolve_js_import("react", &p("/repo/src")), p("/repo/src/react"));
    assert_eq!(resolve_js_import("/abs/x", &p("/repo/src")), p("/abs/x"));
    assert_eq!(resolve_js_import("x", &p("")), p("x"));
}

#[test]
fn script_candidates_replace_or_add_the_extension() {
    let plain = js_candidates(&p("/r/util"), false);
    assert_eq!(
        rendered(&plain),
        vec!["/r/util.js", "/r/util.jsx", "/r/util.ts", "/r/util.tsx"]
    );
    let with_ext = js_candidates(&p("/r/style.css"), false);
    assert_eq!(
        rendered(&with_ext),
        vec!["/r/style.js", "/r/style.jsx", "/r/style.ts", "/r/style.tsx"]
    );
    let dir = js_candidates(&p("/r/comp"), true);
    assert_eq!(
        rendered(&dir),
        vec![
            "/r/comp.js",
            "/r/comp.jsx",
            "/r/comp.ts",
            "/r/comp.tsx",
            "/r/comp/index.js",
            "/r/comp/index.jsx",
            "/r/comp/index.ts",
            "/r/comp/index.tsx"
        ]
    );
}

#[test]
fn every_existing_candidate_survives() {
    let ctx = repo_context();
    let mut fs = Snapshot::new();
    fs.record(&p("/repo/src/util.js"), EntryKind::File);
    fs.record(&p("/repo/src/util.ts"), EntryKind::File);
    let found = get_imports(&p("/repo/src/main.js"), "const u = require('./util')", &ctx, &fs);
    assert_eq!(rendered(&found), vec!["/repo/src/util.js", "/repo/src/util.ts"]);
}

#[test]
fn probes_name_base_and_all_candidates() {
    let ctx = repo_context();
    let probes = import_probes(&p("/repo/src/main.ts"), "import a from '@/lib/x'", &ctx);
    assert_eq!(
        rendered(&probes),
        vec![
            "/repo/lib/x",
            "/repo/lib/x.js",
            "/repo/lib/x.jsx",
            "/repo/lib/x.ts",
            "/repo/lib/x.tsx",
            "/repo/lib/x/index.js",
            "/repo/lib/x/index.jsx",
            "/repo/lib/x/index.ts",
            "/repo/lib/x/index.tsx"
        ]
    );
    let py = import_probes(&p("/repo/pkg/mod.py"), "from .sub import x", &ctx);
    assert_eq!(rendered(&py), vec!["/repo/pkg/sub.py"]);
    assert!(import_probes(&p("/repo/notes.txt"), "import a from './a'", &ctx).is_empty());
}

#[test]
fn context_alias_is_used_by_script_imports() {
    let ctx = repo_context().with_alias("~", &p("/repo/src")).with_alias("@", &p("/other"));
    let mut fs = Snapshot::new();
    fs.record(&p("/repo/src/lib/x.ts"), EntryKind::File);
    fs.record(&p("/repo/top.ts"), EntryKind::File);
    let found = get_imports(
        &p("/repo/app/main.ts"),
        "import x from '~/lib/x'\nimport t from '@/top'",
        &ctx,
        &fs,
    );
    assert_eq!(rendered(&found), vec!["/repo/src/lib/x.ts", "/repo/top.ts"]);
}

#[test]
fn unknown_extension_imports_nothing() {
    let ctx = repo_context();
    let mut fs = Snapshot::new();
    fs.record(&p("/repo/a.js"), EntryKind::File);
    let found = get_imports(&p("/repo/readme.md"), "import a from './a'", &ctx, &fs);
    assert!(found.is_empty());
}

#[test]
fn later_record_replaces_earlier_one() {
    let mut fs = Snapshot::new();
    assert_eq!(fs.kind(&p("/a")), EntryKind::Missing);
    fs.record(&p("/a"), EntryKind::File);
    fs.record(&p("/a/"), EntryKind::Directory);
    assert_eq!(fs.kind(&p("/a")), EntryKind::Directory);
    assert!(fs.has(&p("/a")));
    assert!(!fs.has(&p("/b")));
}
