//! The repository that a run works in: its root, its ignore rules and its
//! alias table. It is made once and only read afterwards.

use crate::aliases::{root_alias, PathAliases};
use crate::error::WalkError;
use crate::path::{FilePath, PathModel};
use crate::resolve::paths;
use crate::snapshot::{agree_on, EntryKind, Snapshot};
use crate::text::{chars_of, rows, slice_of, split, split_on, strings_of, texts};
use ignore::gitignore::GitignoreBuilder;
use vstd::prelude::*;

verus! {

/// The name of the directory that marks the root of a repository.
pub open spec fn marker_name() -> Seq<char> {
    seq!['.', 'g', 'i', 't']
}

/// The place of the repository marker in `dir`.
pub open spec fn marker_in(dir: PathModel) -> PathModel {
    PathModel { absolute: dir.absolute, parts: dir.parts.push(marker_name()) }
}

/// The directory from which the search for the root starts: the entry path
/// itself if it is a directory, else its parent.
pub open spec fn search_start(start: PathModel, is_dir: bool) -> Option<PathModel> {
    if is_dir {
        Some(start)
    } else {
        start.parent()
    }
}

/// The nearest directory, from `dir` upwards, that holds the repository
/// marker as a directory.
pub open spec fn enclosing_root(dir: PathModel, fs: Snapshot) -> Option<PathModel>
    decreases dir.parts.len(),
{
    if fs.kind_of(marker_in(dir)) == EntryKind::Directory {
        Some(dir)
    } else if dir.parts.len() == 0 {
        None
    } else {
        enclosing_root(
            PathModel { absolute: dir.absolute, parts: dir.parts.drop_last() },
            fs,
        )
    }
}

/// The marker places in `dir` and in each directory above it, nearest first.
pub open spec fn marker_places(dir: PathModel) -> Seq<PathModel>
    decreases dir.parts.len(),
{
    if dir.parts.len() == 0 {
        seq![marker_in(dir)]
    } else {
        seq![marker_in(dir)] + marker_places(
            PathModel { absolute: dir.absolute, parts: dir.parts.drop_last() },
        )
    }
}

/// What finding the root comes to.
pub open spec fn root_found(start: PathModel, is_dir: bool, fs: Snapshot) -> Result<
    PathModel,
    WalkError,
> {
    match search_start(start, is_dir) {
        None => Err(WalkError::NoParent),
        Some(dir) => match enclosing_root(dir, fs) {
            Some(root) => Ok(root),
            None => Err(WalkError::NotARepository),
        },
    }
}

/// The root that is found holds the marker and lies at or above the
/// directory the search started from.
pub proof fn law_root_encloses(dir: PathModel, fs: Snapshot)
    requires
        enclosing_root(dir, fs) is Some,
    ensures
        fs.kind_of(marker_in(enclosing_root(dir, fs)->0)) == EntryKind::Directory,
        dir.starts_with(enclosing_root(dir, fs)->0),
    decreases dir.parts.len(),
{
    if fs.kind_of(marker_in(dir)) == EntryKind::Directory {
        assert(dir.parts =~= dir.parts.subrange(0, dir.parts.len() as int));
    } else {
        let up = PathModel { absolute: dir.absolute, parts: dir.parts.drop_last() };
        law_root_encloses(up, fs);
        let root = enclosing_root(up, fs)->0;
        assert(root.parts =~= dir.parts.subrange(0, root.parts.len() as int)) by {
            assert(root.parts =~= up.parts.subrange(0, root.parts.len() as int));
        }
    }
}

/// Where the root lies depends on the file system only through the marker
/// places: two records that say the same of them lead to the same root.
pub proof fn law_markers_suffice(dir: PathModel, a: Snapshot, b: Snapshot)
    requires
        agree_on(a, b, marker_places(dir)),
    ensures
        enclosing_root(dir, a) == enclosing_root(dir, b),
    decreases dir.parts.len(),
{
    let places = marker_places(dir);
    assert(places[0] == marker_in(dir));
    if dir.parts.len() > 0 {
        let up = PathModel { absolute: dir.absolute, parts: dir.parts.drop_last() };
        let rest = marker_places(up);
        assert forall|i: int| 0 <= i < rest.len() implies a.kind_of(#[trigger] rest[i]) == b.kind_of(
            rest[i],
        ) by {
            assert(rest[i] == places[i + 1]);
        }
        law_markers_suffice(up, a, b);
    }
}

fn marker_of(dir: &FilePath) -> (r: FilePath)
    ensures
        r@ == marker_in(dir@),
{
    let name = vec!['.', 'g', 'i', 't'];
    assert(name@ =~= marker_name());
    let tail = FilePath::from_chars(&name);
    proof {
        crate::path::lemma_single_part(marker_name());
    }
    let r = dir.join(&tail);
    assert(r@ =~= marker_in(dir@));
    r
}

/// The paths whose kind decides where the root lies: `find_git_root`
/// consults a record at these paths and at no others.
pub fn marker_probes(start_path: &FilePath, is_dir: bool) -> (r: Vec<FilePath>)
    ensures
        paths(r@) == match search_start(start_path@, is_dir) {
            Some(dir) => marker_places(dir),
            None => Seq::<PathModel>::empty(),
        },
{
    let mut out: Vec<FilePath> = Vec::new();
    let first = if is_dir {
        Some(start_path.clone())
    } else {
        start_path.parent()
    };
    let mut current = match first {
        Some(dir) => dir,
        None => {
            return out;
        },
    };
    let ghost whole = marker_places(current@);
    assert(whole == paths(out@) + marker_places(current@));
    loop
        invariant_except_break
            whole == paths(out@) + marker_places(current@),
        ensures
            paths(out@) == whole,
        decreases current@.parts.len(),
    {
        let ghost before = paths(out@);
        out.push(marker_of(&current));
        assert(paths(out@) == before.push(marker_in(current@)));
        match current.parent() {
            Some(up) => {
                assert(marker_places(current@) == seq![marker_in(current@)] + marker_places(up@));
                current = up;
            },
            None => {
                assert(marker_places(current@) == seq![marker_in(current@)]);
                break;
            },
        }
    }
    out
}

/// Finds the root of the repository: the nearest directory, from the entry
/// path upwards, that holds the repository marker as a directory.
pub fn find_git_root(start_path: &FilePath, is_dir: bool, fs: &Snapshot) -> (r: Result<
    FilePath,
    WalkError,
>)
    ensures
        match root_found(start_path@, is_dir, *fs) {
            Ok(root) => r matches Ok(found) && found@ == root,
            Err(e) => r == Err::<FilePath, WalkError>(e),
        },
{
    let first = if is_dir {
        Some(start_path.clone())
    } else {
        start_path.parent()
    };
    let mut current = match first {
        Some(dir) => dir,
        None => {
            return Err(WalkError::NoParent);
        },
    };
    let ghost start_dir = current@;
    loop
        invariant
            enclosing_root(start_dir, *fs) == enclosing_root(current@, *fs),
            search_start(start_path@, is_dir) == Some(start_dir),
        decreases current@.parts.len(),
    {
        let marker = marker_of(&current);
        match fs.kind(&marker) {
            EntryKind::Directory => {
                return Ok(current);
            },
            _ => {},
        }
        match current.parent() {
            Some(up) => {
                current = up;
            },
            None => {
                return Err(WalkError::NotARepository);
            },
        }
    }
}

/// What the ignore matcher says of a path. `root` is the directory that the
/// rules belong to, `lines` are the lines of the rule file, `rel` is the
/// path from the root to the entry asked about, and `is_dir` says whether
/// that entry is a directory. `None` where the rules cannot be compiled.
pub uninterp spec fn gitignore_verdict(
    root: Seq<char>,
    lines: Seq<Seq<char>>,
    rel: Seq<char>,
    is_dir: bool,
) -> Option<bool>;

/// A relative path in plain form: no `/` in front and no `//` inside.
pub open spec fn is_plain_relative(s: Seq<char>) -> bool {
    &&& s.len() > 0 ==> s[0] != '/'
    &&& forall|i: int| 0 <= i < s.len() - 1 ==> !(#[trigger] s[i] == '/' && s[i + 1] == '/')
}

/// Asks the `ignore` crate. The body builds a matcher for the directory
/// `root` with `GitignoreBuilder::new`, hands it each line with
/// `GitignoreBuilder::add_line` and finishes it with
/// `GitignoreBuilder::build`; it then asks
/// `Gitignore::matched_path_or_any_parents` about `rel` and reads the answer
/// with `Match::is_ignore`.
///
/// The contract claims one thing: the answer is a function of the four
/// arguments, named `gitignore_verdict`. It is `None` where `build` fails.
/// Nothing is claimed of which paths the rules exclude. A line that
/// `add_line` refuses adds no rule; the refusal is dropped.
///
/// `matched_path_or_any_parents` panics on a path that still starts at the
/// root of the file system once the matcher has stripped a leading `./`,
/// the rule directory and one `/`. A plain relative path never does.
#[verifier::external_body]
fn ignore_verdict(root: &str, lines: &Vec<String>, rel: &str, is_dir: bool) -> (r: Option<bool>)
    requires
        is_plain_relative(rel@),
    ensures
        r == gitignore_verdict(root@, texts(lines@), rel@, is_dir),
{
    let mut builder = GitignoreBuilder::new(root);
    for line in lines.iter() {
        let _ = builder.add_line(None, line);
    }
    builder.build().ok().map(|rules| rules.matched_path_or_any_parents(rel, is_dir).is_ignore())
}

/// A line without the carriage return that ends it, if one does.
pub open spec fn without_cr(line: Seq<char>) -> Seq<char> {
    if line.len() > 0 && line.last() == '\r' {
        line.drop_last()
    } else {
        line
    }
}

/// Where the byte order marks in front of a text end.
pub open spec fn marks_end(s: Seq<char>, i: int) -> int
    decreases s.len() - i,
{
    if i < 0 || i >= s.len() {
        s.len() as int
    } else if s[i] != '\u{feff}' {
        i
    } else {
        marks_end(s, i + 1)
    }
}

/// The lines of a rule file: the text cut at line feeds, without the byte
/// order marks that open it and without the carriage returns that end
/// lines.
pub open spec fn rule_lines(text: Seq<char>) -> Seq<Seq<char>> {
    let pieces = split(text.skip(marks_end(text, 0)), '\n');
    Seq::new(pieces.len(), |i: int| without_cr(pieces[i]))
}

/// The ignore rules of a repository, as the lines of its rule file.
#[derive(Debug)]
pub struct IgnoreRules {
    lines: Vec<String>,
}

impl IgnoreRules {
    /// The lines of the rule file.
    pub closed spec fn view(&self) -> Seq<Seq<char>> {
        texts(self.lines@)
    }

    /// Whether there are no lines at all.
    pub fn is_empty(&self) -> (r: bool)
        ensures
            r == (self@.len() == 0),
    {
        self.lines.len() == 0
    }
}

/// Reads the ignore rules from the text of the rule file. A repository
/// without such a file has no rules.
pub fn load_gitignore(text: Option<&str>) -> (r: IgnoreRules)
    ensures
        r@ == match text {
            Some(t) => rule_lines(t@),
            None => Seq::<Seq<char>>::empty(),
        },
{
    match text {
        None => {
            let r = IgnoreRules { lines: Vec::new() };
            assert(r@ =~= Seq::<Seq<char>>::empty());
            r
        },
        Some(t) => {
            let chars = chars_of(t);
            let mut start: usize = 0;
            while start < chars.len() && chars[start] == '\u{feff}'
                invariant
                    start <= chars.len(),
                    marks_end(chars@, 0) == marks_end(chars@, start as int),
                decreases chars.len() - start,
            {
                start = start + 1;
            }
            let body = slice_of(&chars, start, chars.len());
            assert(body@ == chars@.skip(marks_end(chars@, 0)));
            let pieces = split_on(&body, '\n');
            let mut cleaned: Vec<Vec<char>> = Vec::new();
            let mut i: usize = 0;
            while i < pieces.len()
                invariant
                    i <= pieces.len(),
                    rows(pieces@) == split(body@, '\n'),
                    rows(cleaned@) == rule_lines(t@).take(i as int),
                    body@ == t@.skip(marks_end(t@, 0)),
                decreases pieces.len() - i,
            {
                let piece = &pieces[i];
                assert(rows(pieces@)[i as int] == piece@);
                let line = if piece.len() > 0 && piece[piece.len() - 1] == '\r' {
                    slice_of(piece, 0, piece.len() - 1)
                } else {
                    slice_of(piece, 0, piece.len())
                };
                assert(line@ == without_cr(piece@)) by {
                    assert(piece@.subrange(0, piece.len() as int) == piece@);
                }
                let ghost before = rows(cleaned@);
                cleaned.push(line);
                assert(rows(cleaned@) == before.push(line@));
                assert(rule_lines(t@).take(i + 1) == rule_lines(t@).take(i as int).push(line@));
                i = i + 1;
            }
            assert(rule_lines(t@).take(pieces.len() as int) == rule_lines(t@));
            let lines = strings_of(&cleaned);
            IgnoreRules { lines }
        },
    }
}

/// Whether a path is kept out of the closure: it could not be resolved, or
/// it lies outside the repository, or the ignore rules exclude it.
pub open spec fn ignored(
    root: PathModel,
    rules: Seq<Seq<char>>,
    canonical: Option<PathModel>,
    is_dir: bool,
) -> bool {
    match canonical {
        None => true,
        Some(path) => match path.relative_to(root) {
            None => true,
            Some(rel) => rules.len() > 0 && gitignore_verdict(
                root.rendered(),
                rules,
                rel.rendered(),
                is_dir,
            ) == Some(true),
        },
    }
}

/// The repository that a run works in.
#[derive(Debug)]
pub struct ProjectContext {
    git_root: FilePath,
    gitignore: IgnoreRules,
    path_aliases: PathAliases,
}

impl ProjectContext {
    /// The root alias stands for the root of the repository.
    #[verifier::type_invariant]
    pub open spec fn well_formed(&self) -> bool {
        self.aliases().dom().contains(root_alias()) && self.aliases()[root_alias()] == self.root()
    }

    /// The root of the repository.
    pub closed spec fn root(&self) -> PathModel {
        self.git_root@
    }

    /// The lines of the ignore rules.
    pub closed spec fn rules(&self) -> Seq<Seq<char>> {
        self.gitignore@
    }

    /// The alias table.
    pub closed spec fn aliases(&self) -> Map<Seq<char>, PathModel> {
        self.path_aliases@
    }

    /// The context of the repository that encloses `input_file`. The record
    /// `fs` says where repository markers stand; `ignore_text` is the text
    /// of the rule file at the root, if there is one.
    pub fn new(input_file: &FilePath, is_dir: bool, fs: &Snapshot, ignore_text: Option<&str>) -> (r:
        Result<ProjectContext, WalkError>)
        ensures
            match root_found(input_file@, is_dir, *fs) {
                Ok(root) => r matches Ok(ctx) && ctx.root() == root && ctx.rules() == (match ignore_text {
                    Some(t) => rule_lines(t@),
                    None => Seq::<Seq<char>>::empty(),
                }) && ctx.aliases() == Map::<Seq<char>, PathModel>::empty().insert(
                    root_alias(),
                    root,
                ),
                Err(e) => r matches Err(found) && found == e,
            },
    {
        match find_git_root(input_file, is_dir, fs) {
            Ok(git_root) => {
                let gitignore = load_gitignore(ignore_text);
                let path_aliases = PathAliases::new(&git_root);
                Ok(ProjectContext { git_root, gitignore, path_aliases })
            },
            Err(e) => Err(e),
        }
    }

    /// The context with one more alias: `token` stands for `dir`. The root
    /// alias keeps standing for the root of the repository.
    pub fn with_alias(self, token: &str, dir: &FilePath) -> (r: ProjectContext)
        ensures
            r.root() == self.root(),
            r.rules() == self.rules(),
            r.aliases() == if token@ == root_alias() {
                self.aliases()
            } else {
                self.aliases().insert(token@, dir@)
            },
    {
        proof {
            use_type_invariant(&self);
        }
        let ProjectContext { git_root, gitignore, path_aliases } = self;
        let path_aliases = path_aliases.with_alias(token, dir);
        ProjectContext { git_root, gitignore, path_aliases }
    }

    /// The root of the repository.
    pub fn git_root(&self) -> (r: &FilePath)
        ensures
            r@ == self.root(),
    {
        &self.git_root
    }

    /// The alias table.
    pub fn path_aliases(&self) -> (r: &PathAliases)
        ensures
            r@ == self.aliases(),
    {
        &self.path_aliases
    }

    /// Whether a path is kept out of the closure. `canonical` is the path
    /// as the file system resolves it, `None` where it cannot; `is_dir`
    /// says whether it is a directory.
    pub fn is_ignored(&self, canonical: Option<&FilePath>, is_dir: bool) -> (r: bool)
        ensures
            r == ignored(self.root(), self.rules(), match canonical {
                Some(p) => Some(p@),
                None => None,
            }, is_dir),
    {
        match canonical {
            None => true,
            Some(path) => match path.relative_to(&self.git_root) {
                None => true,
                Some(rel) => {
                    if self.gitignore.is_empty() {
                        return false;
                    }
                    let root_text = self.git_root.render();
                    let rel_text = rel.render();
                    proof {
                        use_type_invariant(&rel);
                        crate::path::lemma_relative_is_plain(rel@);
                    }
                    match ignore_verdict(
                        root_text.as_str(),
                        &self.gitignore.lines,
                        rel_text.as_str(),
                        is_dir,
                    ) {
                        Some(verdict) => verdict,
                        None => false,
                    }
                },
            },
        }
    }
}

} // verus!
