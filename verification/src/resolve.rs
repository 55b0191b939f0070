//! From an import string to the files it may mean. Each rule yields
//! candidate paths; which of them exist is decided afterwards, in one place,
//! from a record of the file system. An import that leads to no existing
//! file is dropped without complaint: that is how imports of installed
//! packages leave the closure.

use crate::aliases::{alias_target, PathAliases};
use crate::context::ProjectContext;
use crate::extract::{imports_in, language_of, Language};
use crate::path::{path_of, FilePath, PathModel};
use crate::snapshot::{agree_on, EntryKind, Snapshot};
use crate::text::{chars_of, rows};
use vstd::prelude::*;

verus! {

/// The view of each path of a list.
pub open spec fn paths(v: Seq<FilePath>) -> Seq<PathModel> {
    v.map_values(|p: FilePath| p@)
}

/// A module name with each `.` turned into `/`.
pub open spec fn dots_to_slashes(s: Seq<char>) -> Seq<char> {
    Seq::new(s.len(), |i: int| if s[i] == '.' { '/' } else { s[i] })
}

/// The extension of Python source files.
pub open spec fn ext_py() -> Seq<char> {
    seq!['p', 'y']
}

/// The extensions that a script import may stand for, in the order in which
/// candidates are made.
pub open spec fn script_extensions() -> Seq<Seq<char>> {
    seq![seq!['j', 's'], seq!['j', 's', 'x'], seq!['t', 's'], seq!['t', 's', 'x']]
}

/// The name, without extension, of the file that stands for a directory.
pub open spec fn word_index() -> Seq<char> {
    seq!['i', 'n', 'd', 'e', 'x']
}

/// A path taken as relative, whatever it was.
pub open spec fn as_relative(p: PathModel) -> PathModel {
    PathModel { absolute: false, parts: p.parts }
}

/// The file that a Python import names. The dots of the module become
/// separators. A module that starts with a dot is sought below the directory
/// of the importing file, any other below the root of the repository. The
/// extension `py` is added.
pub open spec fn python_target(import: Seq<char>, file_dir: PathModel, git_root: PathModel) -> PathModel {
    let module = path_of(dots_to_slashes(import));
    if import.len() > 0 && import[0] == '.' {
        file_dir.joined(as_relative(module)).with_extension(ext_py())
    } else {
        git_root.joined(module).with_extension(ext_py())
    }
}

/// Where a script import leads when no alias applies: the import string
/// continues the directory of the importing file.
pub open spec fn script_fallback(import: Seq<char>, file_dir: PathModel) -> PathModel {
    file_dir.joined(path_of(import))
}

/// Where a script import leads before extensions are tried: by the alias
/// rule where it applies, else from the directory of the importing file.
pub open spec fn script_base(
    aliases: Map<Seq<char>, PathModel>,
    import: Seq<char>,
    file_dir: PathModel,
) -> PathModel {
    match alias_target(aliases, import, file_dir) {
        Some(p) => p,
        None => script_fallback(import, file_dir),
    }
}

/// The base path with each script extension in turn, in place of the
/// extension it has or added where it has none.
pub open spec fn file_candidates(base: PathModel) -> Seq<PathModel> {
    Seq::new(4, |i: int| base.with_extension(script_extensions()[i]))
}

/// The index file of the directory `base`, with each script extension in
/// turn.
pub open spec fn index_candidates(base: PathModel) -> Seq<PathModel> {
    Seq::new(
        4,
        |i: int|
            PathModel {
                absolute: base.absolute,
                parts: base.parts.push(word_index() + seq!['.'] + script_extensions()[i]),
            },
    )
}

/// The candidates of a script import: the file candidates, and the index
/// candidates as well where the base path is a directory.
pub open spec fn script_candidates(base: PathModel, base_is_dir: bool) -> Seq<PathModel> {
    if base_is_dir {
        file_candidates(base) + index_candidates(base)
    } else {
        file_candidates(base)
    }
}

/// The paths among `candidates` at which something stands, in order.
pub open spec fn existing(candidates: Seq<PathModel>, fs: Snapshot) -> Seq<PathModel>
    decreases candidates.len(),
{
    if candidates.len() == 0 {
        Seq::<PathModel>::empty()
    } else {
        let before = existing(candidates.drop_last(), fs);
        if fs.holds(candidates.last()) {
            before.push(candidates.last())
        } else {
            before
        }
    }
}

fn py_ext() -> (r: Vec<char>)
    ensures
        r@ == ext_py(),
{
    let r = vec!['p', 'y'];
    assert(r@ =~= ext_py());
    r
}

fn script_ext(i: usize) -> (r: Vec<char>)
    requires
        i < 4,
    ensures
        r@ == script_extensions()[i as int],
        r@.len() > 0,
        !r@.contains('/'),
{
    let r = if i == 0 {
        vec!['j', 's']
    } else if i == 1 {
        vec!['j', 's', 'x']
    } else if i == 2 {
        vec!['t', 's']
    } else {
        vec!['t', 's', 'x']
    };
    assert(r@ =~= script_extensions()[i as int]);
    r
}

fn slashes_for_dots(s: &Vec<char>) -> (r: Vec<char>)
    ensures
        r@ == dots_to_slashes(s@),
{
    let mut out: Vec<char> = Vec::new();
    let mut i: usize = 0;
    while i < s.len()
        invariant
            i <= s.len(),
            out@ == dots_to_slashes(s@).take(i as int),
        decreases s.len() - i,
    {
        let c = if s[i] == '.' {
            '/'
        } else {
            s[i]
        };
        out.push(c);
        assert(out@ == dots_to_slashes(s@).take(i + 1));
        i = i + 1;
    }
    assert(dots_to_slashes(s@).take(s.len() as int) == dots_to_slashes(s@));
    out
}

/// The file that a Python import names: always one candidate, whether or
/// not such a file exists.
pub fn resolve_python_import(import: &str, file_dir: &FilePath, git_root: &FilePath) -> (r: Option<
    FilePath,
>)
    ensures
        r matches Some(p) && p@ == python_target(import@, file_dir@, git_root@),
{
    let chars = chars_of(import);
    Some(python_candidate(&chars, file_dir, git_root))
}

/// `resolve_python_import` on the characters of the import string.
pub fn python_candidate(import: &Vec<char>, file_dir: &FilePath, git_root: &FilePath) -> (r: FilePath)
    ensures
        r@ == python_target(import@, file_dir@, git_root@),
{
    let converted = slashes_for_dots(import);
    let module = FilePath::from_chars(&converted);
    let ext = py_ext();
    assert(!ext@.contains('/')) by {
        assert forall|j: int| 0 <= j < ext@.len() implies ext@[j] != '/' by {}
    }
    if import.len() > 0 && import[0] == '.' {
        let relative = module.into_relative();
        file_dir.join(&relative).with_extension(&ext)
    } else {
        git_root.join(&module).with_extension(&ext)
    }
}

/// Where a script import leads when no alias applies.
pub fn resolve_js_import(import: &str, file_dir: &FilePath) -> (r: FilePath)
    ensures
        r@ == script_fallback(import@, file_dir@),
{
    let tail = FilePath::parse(import);
    file_dir.join(&tail)
}

/// Where a script import leads before extensions are tried.
pub fn resolve_script_base(aliases: &PathAliases, import: &Vec<char>, file_dir: &FilePath) -> (r:
    FilePath)
    ensures
        r@ == script_base(aliases@, import@, file_dir@),
{
    match aliases.resolve_chars(import, file_dir) {
        Some(p) => p,
        None => {
            let tail = FilePath::from_chars(import);
            file_dir.join(&tail)
        },
    }
}

/// The candidates of a script import whose base path is `base`.
pub fn js_candidates(base: &FilePath, base_is_dir: bool) -> (r: Vec<FilePath>)
    ensures
        paths(r@) == script_candidates(base@, base_is_dir),
{
    let mut out: Vec<FilePath> = Vec::new();
    let mut i: usize = 0;
    while i < 4
        invariant
            i <= 4,
            paths(out@) == file_candidates(base@).take(i as int),
        decreases 4 - i,
    {
        let ext = script_ext(i);
        let ghost before = paths(out@);
        let c = base.with_extension(&ext);
        out.push(c);
        assert(paths(out@) == before.push(c@));
        assert(file_candidates(base@).take(i + 1) == file_candidates(base@).take(i as int).push(
            base@.with_extension(script_extensions()[i as int]),
        ));
        i = i + 1;
    }
    assert(file_candidates(base@).take(4) == file_candidates(base@));
    if base_is_dir {
        let mut k: usize = 0;
        while k < 4
            invariant
                k <= 4,
                paths(out@) == file_candidates(base@) + index_candidates(base@).take(k as int),
            decreases 4 - k,
        {
            let ext = script_ext(k);
            let ghost before = paths(out@);
            let c = base.index_file(&ext);
            out.push(c);
            assert(paths(out@) == before.push(c@));
            assert(index_candidates(base@).take(k + 1) == index_candidates(base@).take(
                k as int,
            ).push(c@));
            k = k + 1;
        }
        assert(index_candidates(base@).take(4) == index_candidates(base@));
    }
    out
}

/// Keeps the candidates at which something stands.
pub fn keep_existing(candidates: &Vec<FilePath>, fs: &Snapshot) -> (r: Vec<FilePath>)
    ensures
        paths(r@) == existing(paths(candidates@), *fs),
{
    let mut out: Vec<FilePath> = Vec::new();
    let mut i: usize = 0;
    while i < candidates.len()
        invariant
            i <= candidates.len(),
            paths(out@) == existing(paths(candidates@).take(i as int), *fs),
        decreases candidates.len() - i,
    {
        assert(paths(candidates@).take(i + 1).drop_last() == paths(candidates@).take(i as int));
        assert(paths(candidates@).take(i + 1).last() == candidates[i as int]@);
        if fs.has(&candidates[i]) {
            let ghost before = paths(out@);
            out.push(candidates[i].clone());
            assert(paths(out@) == before.push(candidates[i as int]@));
        }
        i = i + 1;
    }
    assert(paths(candidates@).take(candidates.len() as int) == paths(candidates@));
    out
}

/// The directory of a file: its parent, or the empty relative path where it
/// has none.
pub open spec fn file_dir_of(path: PathModel) -> PathModel {
    match path.parent() {
        Some(dir) => dir,
        None => PathModel { absolute: false, parts: Seq::<Seq<char>>::empty() },
    }
}

/// The candidates of one import, whatever exists.
pub open spec fn import_candidates(
    lang: Language,
    root: PathModel,
    aliases: Map<Seq<char>, PathModel>,
    import: Seq<char>,
    file_dir: PathModel,
    fs: Snapshot,
) -> Seq<PathModel> {
    match lang {
        Language::Python => seq![python_target(import, file_dir, root)],
        Language::Script => {
            let base = script_base(aliases, import, file_dir);
            script_candidates(base, fs.kind_of(base) == EntryKind::Directory)
        },
    }
}

/// The existing files that one import leads to.
pub open spec fn import_targets(
    lang: Language,
    root: PathModel,
    aliases: Map<Seq<char>, PathModel>,
    import: Seq<char>,
    file_dir: PathModel,
    fs: Snapshot,
) -> Seq<PathModel> {
    existing(import_candidates(lang, root, aliases, import, file_dir, fs), fs)
}

/// The paths whose kind decides what one import leads to.
pub open spec fn import_probe_paths(
    lang: Language,
    root: PathModel,
    aliases: Map<Seq<char>, PathModel>,
    import: Seq<char>,
    file_dir: PathModel,
) -> Seq<PathModel> {
    match lang {
        Language::Python => seq![python_target(import, file_dir, root)],
        Language::Script => {
            let base = script_base(aliases, import, file_dir);
            seq![base] + file_candidates(base) + index_candidates(base)
        },
    }
}

/// The existing files that the given imports lead to, import by import.
pub open spec fn targets_of(
    lang: Language,
    root: PathModel,
    aliases: Map<Seq<char>, PathModel>,
    imports: Seq<Seq<char>>,
    file_dir: PathModel,
    fs: Snapshot,
) -> Seq<PathModel>
    decreases imports.len(),
{
    if imports.len() == 0 {
        Seq::<PathModel>::empty()
    } else {
        targets_of(lang, root, aliases, imports.drop_last(), file_dir, fs) + import_targets(
            lang,
            root,
            aliases,
            imports.last(),
            file_dir,
            fs,
        )
    }
}

/// The paths whose kind decides what the given imports lead to.
pub open spec fn probes_of(
    lang: Language,
    root: PathModel,
    aliases: Map<Seq<char>, PathModel>,
    imports: Seq<Seq<char>>,
    file_dir: PathModel,
) -> Seq<PathModel>
    decreases imports.len(),
{
    if imports.len() == 0 {
        Seq::<PathModel>::empty()
    } else {
        probes_of(lang, root, aliases, imports.drop_last(), file_dir) + import_probe_paths(
            lang,
            root,
            aliases,
            imports.last(),
            file_dir,
        )
    }
}

/// The existing files that a source file imports: its raw imports, each
/// resolved by the rules of the file's language and kept where something
/// stands at the candidate. A file in no known language imports nothing.
pub open spec fn imports_of_file(
    root: PathModel,
    aliases: Map<Seq<char>, PathModel>,
    file_path: PathModel,
    content: Seq<char>,
    fs: Snapshot,
) -> Seq<PathModel> {
    match language_of(file_path) {
        None => Seq::<PathModel>::empty(),
        Some(lang) => targets_of(
            lang,
            root,
            aliases,
            imports_in(lang, content),
            file_dir_of(file_path),
            fs,
        ),
    }
}

/// The paths whose kind decides what a source file imports.
pub open spec fn probes_of_file(
    root: PathModel,
    aliases: Map<Seq<char>, PathModel>,
    file_path: PathModel,
    content: Seq<char>,
) -> Seq<PathModel> {
    match language_of(file_path) {
        None => Seq::<PathModel>::empty(),
        Some(lang) => probes_of(
            lang,
            root,
            aliases,
            imports_in(lang, content),
            file_dir_of(file_path),
        ),
    }
}

fn parent_dir(file_path: &FilePath) -> (r: FilePath)
    ensures
        r@ == file_dir_of(file_path@),
{
    match file_path.parent() {
        Some(dir) => dir,
        None => {
            let empty: Vec<char> = Vec::new();
            let r = FilePath::from_chars(&empty);
            assert(r@ =~= file_dir_of(file_path@)) by {
                assert(empty@ =~= Seq::<char>::empty());
                assert(crate::text::split(empty@, '/') =~= seq![Seq::<char>::empty()]);
                let pieces = crate::text::split(empty@, '/');
                assert(pieces.drop_last() =~= Seq::<Seq<char>>::empty());
                assert(crate::path::normal_parts(pieces.drop_last()) =~= Seq::<Seq<char>>::empty());
            }
            r
        },
    }
}

fn candidates_of(lang: Language, ctx: &ProjectContext, import: &Vec<char>, file_dir: &FilePath, fs: &Snapshot) -> (r: Vec<FilePath>)
    ensures
        paths(r@) == import_candidates(lang, ctx.root(), ctx.aliases(), import@, file_dir@, *fs),
{
    match lang {
        Language::Python => {
            let mut out: Vec<FilePath> = Vec::new();
            let c = python_candidate(import, file_dir, ctx.git_root());
            out.push(c);
            assert(paths(out@) =~= seq![c@]);
            out
        },
        Language::Script => {
            let base = resolve_script_base(ctx.path_aliases(), import, file_dir);
            let is_dir = match fs.kind(&base) {
                EntryKind::Directory => true,
                _ => false,
            };
            js_candidates(&base, is_dir)
        },
    }
}

fn probes_of_import(lang: Language, ctx: &ProjectContext, import: &Vec<char>, file_dir: &FilePath) -> (r: Vec<FilePath>)
    ensures
        paths(r@) == import_probe_paths(lang, ctx.root(), ctx.aliases(), import@, file_dir@),
{
    match lang {
        Language::Python => {
            let mut out: Vec<FilePath> = Vec::new();
            let c = python_candidate(import, file_dir, ctx.git_root());
            out.push(c);
            assert(paths(out@) =~= seq![c@]);
            out
        },
        Language::Script => {
            let base = resolve_script_base(ctx.path_aliases(), import, file_dir);
            let mut all = js_candidates(&base, true);
            let ghost cands = paths(all@);
            all.insert(0, base.clone());
            assert(paths(all@) =~= seq![base@] + cands);
            assert(seq![base@] + (file_candidates(base@) + index_candidates(base@)) =~= seq![base@]
                + file_candidates(base@) + index_candidates(base@));
            all
        },
    }
}

/// The paths whose kind decides what `file_path` imports: `get_imports`
/// consults a record at these paths and at no others.
pub fn import_probes(file_path: &FilePath, content: &str, ctx: &ProjectContext) -> (r: Vec<FilePath>)
    ensures
        paths(r@) == probes_of_file(ctx.root(), ctx.aliases(), file_path@, content@),
{
    let lang = match Language::from_path(file_path) {
        Some(lang) => lang,
        None => {
            let out: Vec<FilePath> = Vec::new();
            assert(paths(out@) =~= Seq::<PathModel>::empty());
            return out;
        },
    };
    let chars = chars_of(content);
    let imports = lang.extract_chars(&chars);
    let file_dir = parent_dir(file_path);
    let mut out: Vec<FilePath> = Vec::new();
    let mut i: usize = 0;
    assert(paths(out@) =~= Seq::<PathModel>::empty());
    while i < imports.len()
        invariant
            i <= imports.len(),
            paths(out@) == probes_of(
                lang,
                ctx.root(),
                ctx.aliases(),
                rows(imports@).take(i as int),
                file_dir@,
            ),
        decreases imports.len() - i,
    {
        assert(rows(imports@).take(i + 1).drop_last() == rows(imports@).take(i as int));
        assert(rows(imports@).take(i + 1).last() == imports[i as int]@);
        let mut found = probes_of_import(lang, ctx, &imports[i], &file_dir);
        let ghost before = paths(out@);
        let ghost added = paths(found@);
        out.append(&mut found);
        assert(paths(out@) =~= before + added);
        i = i + 1;
    }
    assert(rows(imports@).take(imports.len() as int) == rows(imports@));
    out
}

/// The existing files that `file_path` imports, given its content and a
/// record of the file system.
pub fn get_imports(file_path: &FilePath, content: &str, ctx: &ProjectContext, fs: &Snapshot) -> (r:
    Vec<FilePath>)
    ensures
        paths(r@) == imports_of_file(ctx.root(), ctx.aliases(), file_path@, content@, *fs),
{
    let lang = match Language::from_path(file_path) {
        Some(lang) => lang,
        None => {
            let out: Vec<FilePath> = Vec::new();
            assert(paths(out@) =~= Seq::<PathModel>::empty());
            return out;
        },
    };
    let chars = chars_of(content);
    let imports = lang.extract_chars(&chars);
    let file_dir = parent_dir(file_path);
    let mut out: Vec<FilePath> = Vec::new();
    let mut i: usize = 0;
    assert(paths(out@) =~= Seq::<PathModel>::empty());
    while i < imports.len()
        invariant
            i <= imports.len(),
            paths(out@) == targets_of(
                lang,
                ctx.root(),
                ctx.aliases(),
                rows(imports@).take(i as int),
                file_dir@,
                *fs,
            ),
        decreases imports.len() - i,
    {
        assert(rows(imports@).take(i + 1).drop_last() == rows(imports@).take(i as int));
        assert(rows(imports@).take(i + 1).last() == imports[i as int]@);
        let candidates = candidates_of(lang, ctx, &imports[i], &file_dir, fs);
        let mut found = keep_existing(&candidates, fs);
        let ghost before = paths(out@);
        let ghost added = paths(found@);
        out.append(&mut found);
        assert(paths(out@) =~= before + added);
        i = i + 1;
    }
    assert(rows(imports@).take(imports.len() as int) == rows(imports@));
    out
}

proof fn lemma_existing_agrees(candidates: Seq<PathModel>, a: Snapshot, b: Snapshot)
    requires
        agree_on(a, b, candidates),
    ensures
        existing(candidates, a) == existing(candidates, b),
    decreases candidates.len(),
{
    if candidates.len() > 0 {
        let shorter = candidates.drop_last();
        assert forall|i: int| 0 <= i < shorter.len() implies a.kind_of(#[trigger] shorter[i])
            == b.kind_of(shorter[i]) by {
            assert(shorter[i] == candidates[i]);
        }
        lemma_existing_agrees(shorter, a, b);
        assert(candidates.last() == candidates[candidates.len() - 1]);
    }
}

proof fn lemma_targets_agree(
    lang: Language,
    root: PathModel,
    aliases: Map<Seq<char>, PathModel>,
    import: Seq<char>,
    file_dir: PathModel,
    a: Snapshot,
    b: Snapshot,
)
    requires
        agree_on(a, b, import_probe_paths(lang, root, aliases, import, file_dir)),
    ensures
        import_targets(lang, root, aliases, import, file_dir, a) == import_targets(
            lang,
            root,
            aliases,
            import,
            file_dir,
            b,
        ),
{
    let probes = import_probe_paths(lang, root, aliases, import, file_dir);
    match lang {
        Language::Python => {
            lemma_existing_agrees(probes, a, b);
        },
        Language::Script => {
            let base = script_base(aliases, import, file_dir);
            assert(probes[0] == base);
            assert(a.kind_of(base) == b.kind_of(base));
            let candidates = import_candidates(lang, root, aliases, import, file_dir, a);
            assert(candidates == import_candidates(lang, root, aliases, import, file_dir, b));
            assert forall|i: int| 0 <= i < candidates.len() implies a.kind_of(
                #[trigger] candidates[i],
            ) == b.kind_of(candidates[i]) by {
                assert(candidates[i] == probes[i + 1]);
            }
            lemma_existing_agrees(candidates, a, b);
        },
    }
}

proof fn lemma_all_targets_agree(
    lang: Language,
    root: PathModel,
    aliases: Map<Seq<char>, PathModel>,
    imports: Seq<Seq<char>>,
    file_dir: PathModel,
    a: Snapshot,
    b: Snapshot,
)
    requires
        agree_on(a, b, probes_of(lang, root, aliases, imports, file_dir)),
    ensures
        targets_of(lang, root, aliases, imports, file_dir, a) == targets_of(
            lang,
            root,
            aliases,
            imports,
            file_dir,
            b,
        ),
    decreases imports.len(),
{
    if imports.len() > 0 {
        let head = probes_of(lang, root, aliases, imports.drop_last(), file_dir);
        let tail = import_probe_paths(lang, root, aliases, imports.last(), file_dir);
        let all = probes_of(lang, root, aliases, imports, file_dir);
        assert(all == head + tail);
        assert forall|i: int| 0 <= i < head.len() implies a.kind_of(#[trigger] head[i]) == b.kind_of(
            head[i],
        ) by {
            assert(head[i] == all[i]);
        }
        assert forall|i: int| 0 <= i < tail.len() implies a.kind_of(#[trigger] tail[i]) == b.kind_of(
            tail[i],
        ) by {
            assert(tail[i] == all[head.len() + i]);
        }
        lemma_all_targets_agree(lang, root, aliases, imports.drop_last(), file_dir, a, b);
        lemma_targets_agree(lang, root, aliases, imports.last(), file_dir, a, b);
    }
}

/// What a file imports depends on the file system only through the paths
/// that are asked about: two records that say the same of those paths lead
/// to the same imports.
pub proof fn law_probes_suffice(
    root: PathModel,
    aliases: Map<Seq<char>, PathModel>,
    file_path: PathModel,
    content: Seq<char>,
    a: Snapshot,
    b: Snapshot,
)
    requires
        agree_on(a, b, probes_of_file(root, aliases, file_path, content)),
    ensures
        imports_of_file(root, aliases, file_path, content, a) == imports_of_file(
            root,
            aliases,
            file_path,
            content,
            b,
        ),
{
    match language_of(file_path) {
        None => {},
        Some(lang) => {
            lemma_all_targets_agree(
                lang,
                root,
                aliases,
                imports_in(lang, content),
                file_dir_of(file_path),
                a,
                b,
            );
        },
    }
}

} // verus!
