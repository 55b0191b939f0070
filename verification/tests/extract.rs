use import_closure::extract::Language;
use import_closure::path::FilePath;

fn python(content: &str) -> Vec<String> {
    Language::Python.extract(content)
}

fn script(content: &str) -> Vec<String> {
    Language::Script.extract(content)
}

#[test]
fn python_import_statement() {
    assert_eq!(python("import a.b.c"), vec!["a.b.c".to_string()]);
}

#[test]
fn python_from_statement() {
    assert_eq!(python("from pkg.sub import x, y"), vec!["pkg.sub".to_string()]);
}

#[test]
fn python_relative_markers_are_kept() {
    assert_eq!(python("from .sub import x"), vec![".sub".to_string()]);
    assert_eq!(python("from ..up.mod import x"), vec!["..up.mod".to_string()]);
}

#[test]
fn python_lines_are_trimmed_before_matching() {
    assert_eq!(python("    import os   \r\n\tfrom a import b"), vec!["os".to_string(), "a".to_string()]);
}

#[test]
fn python_alias_and_list_yield_first_module() {
    assert_eq!(python("import numpy as np"), vec!["numpy".to_string()]);
    assert_eq!(python("import a, b"), vec!["a".to_string()]);
}

#[test]
fn python_three_dots_or_bare_dot_is_no_module() {
    assert!(python("from ...deep import x").is_empty());
    assert!(python("from . import x").is_empty());
    assert!(python("import a..b").is_empty());
    assert!(python("import 9lives").is_empty());
}

#[test]
fn python_statement_must_open_the_line() {
    assert!(python("x = 1; import os").is_empty());
    assert!(python("importlib.reload(x)").is_empty());
    assert!(python("from a importx").is_empty());
    assert!(python("# nothing here").is_empty());
}

#[test]
fn python_import_keyword_may_be_followed_by_bracket() {
    assert_eq!(python("from a.b import(x)"), vec!["a.b".to_string()]);
}

#[test]
fn script_import_from_with_each_quote() {
    assert_eq!(script("import x from './a'"), vec!["./a".to_string()]);
    assert_eq!(script("import {y} from \"../b\";"), vec!["../b".to_string()]);
    assert_eq!(script("import z from `@/c`"), vec!["@/c".to_string()]);
}

#[test]
fn script_require_call() {
    assert_eq!(script("const fs = require('fs');"), vec!["fs".to_string()]);
    assert_eq!(script("const u = require( \"./util\" )"), vec!["./util".to_string()]);
}

#[test]
fn script_from_needs_an_import_before_it() {
    assert!(script("const x = from './a'").is_empty());
    assert!(script("from './a' import x").is_empty());
}

#[test]
fn script_skips_from_inside_a_name() {
    assert_eq!(script("import { fromJS } from 'immutable'"), vec!["immutable".to_string()]);
}

#[test]
fn script_leftmost_place_decides() {
    assert_eq!(
        script("const a = require('first'); import b from 'second'"),
        vec!["first".to_string()]
    );
}

#[test]
fn script_unclosed_literal_and_bare_import_yield_nothing() {
    assert!(script("import x from './a").is_empty());
    assert!(script("import './side-effect'").is_empty());
    assert!(script("require(name)").is_empty());
}

#[test]
fn one_import_per_line_in_line_order() {
    let text = "import a from './a'\nconst b = require('./b')\n\nlet x = 1\nimport c from './c'";
    assert_eq!(script(text), vec!["./a".to_string(), "./b".to_string(), "./c".to_string()]);
}

#[test]
fn malformed_text_yields_nothing_and_does_not_fail() {
    assert!(script("").is_empty());
    assert!(python("").is_empty());
    assert!(python("from\nimport\nfrom  import x\n\u{0}\u{feff}").is_empty());
}

#[test]
fn language_by_extension() {
    assert_eq!(Language::from_path(&FilePath::parse("/r/a.py")), Some(Language::Python));
    assert_eq!(Language::from_path(&FilePath::parse("/r/a.PY")), Some(Language::Python));
    assert_eq!(Language::from_path(&FilePath::parse("a.js")), Some(Language::Script));
    assert_eq!(Language::from_path(&FilePath::parse("a.jsx")), Some(Language::Script));
    assert_eq!(Language::from_path(&FilePath::parse("a.ts")), Some(Language::Script));
    assert_eq!(Language::from_path(&FilePath::parse("a.Tsx")), Some(Language::Script));
    assert_eq!(Language::from_path(&FilePath::parse("a.rs")), None);
    assert_eq!(Language::from_path(&FilePath::parse("Makefile")), None);
    assert_eq!(Language::from_path(&FilePath::parse(".py")), None);
    assert_eq!(Language::from_path(&FilePath::parse("/")), None);
}
