//! Finding import statements in source text. The scan is lexical and works
//! line by line: it finds the targets of imports and makes no attempt to
//! understand the rest of the language. A line it does not recognise yields
//! nothing.

use crate::path::{FilePath, PathModel};
use crate::text::{
    chars_of, find_char, find_from, is_blank, is_word_char, occurs, occurs_at, rows, skip_blank,
    skip_blanks, slice_of, split, split_on, strings_of, texts, trim, trimmed, word_char,
};
use vstd::prelude::*;

verus! {

/// The languages whose imports are followed.
#[derive(Clone, Copy, Debug, PartialEq, Eq)]
pub enum Language {
    /// Python: `import a.b` and `from a.b import c`.
    Python,
    /// JavaScript and TypeScript, with or without JSX.
    Script,
}

/// The word `from`.
pub open spec fn word_from() -> Seq<char> {
    seq!['f', 'r', 'o', 'm']
}

/// The word `import`.
pub open spec fn word_import() -> Seq<char> {
    seq!['i', 'm', 'p', 'o', 'r', 't']
}

/// The call `require(`, up to its bracket.
pub open spec fn word_require() -> Seq<char> {
    seq!['r', 'e', 'q', 'u', 'i', 'r', 'e', '(']
}

/// Two characters are the same letter, whatever their case. `low` is the
/// lower-case one.
pub open spec fn same_letter(c: char, low: char) -> bool {
    c == low || ('a' <= low && low <= 'z' && c as u32 + 32 == low as u32)
}

/// `ext` is `word`, whatever the case of its letters. `word` is in lower case.
pub open spec fn is_extension(ext: Seq<char>, word: Seq<char>) -> bool {
    ext.len() == word.len() && forall|i: int|
        0 <= i < ext.len() ==> same_letter(#[trigger] ext[i], word[i])
}

/// The language that a file extension stands for.
pub open spec fn language_of_extension(ext: Seq<char>) -> Option<Language> {
    if is_extension(ext, seq!['p', 'y']) {
        Some(Language::Python)
    } else if is_extension(ext, seq!['j', 's']) || is_extension(ext, seq!['t', 's'])
        || is_extension(ext, seq!['j', 's', 'x']) || is_extension(ext, seq!['t', 's', 'x']) {
        Some(Language::Script)
    } else {
        None
    }
}

/// The language of a file, told by the extension of its name.
pub open spec fn language_of(path: PathModel) -> Option<Language> {
    match path.extension() {
        Some(ext) => language_of_extension(ext),
        None => None,
    }
}

/// The ASCII digits.
pub open spec fn is_digit(c: char) -> bool {
    '0' <= c && c <= '9'
}

/// The character at `i` may stand where it does in a dotted name: a `.`
/// follows a character that is no `.`, and an identifier does not start with
/// a digit.
pub open spec fn name_char_ok(t: Seq<char>, i: int) -> bool {
    if t[i] == '.' {
        i > 0 && t[i - 1] != '.'
    } else {
        is_word_char(t[i]) && ((i == 0 || t[i - 1] == '.') ==> !is_digit(t[i]))
    }
}

/// Identifiers with single dots between them: `a`, `a.b`, `pkg.sub.mod`.
pub open spec fn is_dotted_name(t: Seq<char>) -> bool {
    &&& t.len() > 0
    &&& t.last() != '.'
    &&& forall|i: int| 0 <= i < t.len() ==> #[trigger] name_char_ok(t, i)
}

/// A module as an import statement names it: a dotted name after at most two
/// dots.
pub open spec fn is_module_token(t: Seq<char>) -> bool {
    ||| is_dotted_name(t)
    ||| (t.len() > 1 && t[0] == '.' && is_dotted_name(t.skip(1)))
    ||| (t.len() > 2 && t[0] == '.' && t[1] == '.' && is_dotted_name(t.skip(2)))
}

/// What a module name is written with: identifier characters and `.`.
pub open spec fn is_module_char(c: char) -> bool {
    is_word_char(c) || c == '.'
}

/// Where the run of module characters that starts at `i` ends.
pub open spec fn module_end(s: Seq<char>, i: int) -> int
    decreases s.len() - i,
{
    if i < 0 || i >= s.len() {
        s.len() as int
    } else if !is_module_char(s[i]) {
        i
    } else {
        module_end(s, i + 1)
    }
}

/// `word` stands at `i` and no identifier character follows it.
pub open spec fn keyword_at(s: Seq<char>, i: int, word: Seq<char>) -> bool {
    occurs_at(s, i, word) && (i + word.len() == s.len() || !is_word_char(s[i + word.len()]))
}

/// `word` opens the statement: it stands first and a blank follows it.
pub open spec fn opens_with(s: Seq<char>, word: Seq<char>) -> bool {
    occurs_at(s, 0, word) && word.len() < s.len() && is_blank(s[word.len() as int])
}

/// The module that a Python line imports. After the blanks around the line
/// are dropped, the line is `from`, blanks, a module, blanks and the keyword
/// `import`; or it is `import`, blanks and a module. The module is the whole
/// run of letters, digits, `_` and `.` found there.
pub open spec fn python_import(line: Seq<char>) -> Option<Seq<char>> {
    let s = trimmed(line);
    if opens_with(s, word_from()) {
        let a = skip_blanks(s, 4);
        let b = module_end(s, a);
        let c = skip_blanks(s, b);
        if is_module_token(s.subrange(a, b)) && b < c && keyword_at(s, c, word_import()) {
            Some(s.subrange(a, b))
        } else {
            None
        }
    } else if opens_with(s, word_import()) {
        let a = skip_blanks(s, 6);
        let b = module_end(s, a);
        if is_module_token(s.subrange(a, b)) {
            Some(s.subrange(a, b))
        } else {
            None
        }
    } else {
        None
    }
}

/// The three characters that open and close a string literal.
pub open spec fn is_quote(c: char) -> bool {
    c == '\'' || c == '"' || c == '`'
}

/// The body of the string literal that opens at `i`: what stands between
/// the quote at `i` and the next quote of the same kind.
pub open spec fn quoted_at(s: Seq<char>, i: int) -> Option<Seq<char>> {
    if 0 <= i < s.len() && is_quote(s[i]) {
        let close = find_from(s, s[i], i + 1);
        if close < s.len() {
            Some(s.subrange(i + 1, close))
        } else {
            None
        }
    } else {
        None
    }
}

/// The least index at or after `i` where `pat` stands; the length of `s` if
/// there is none.
pub open spec fn first_occurrence(s: Seq<char>, pat: Seq<char>, i: int) -> int
    decreases s.len() - i,
{
    if i < 0 || i >= s.len() {
        s.len() as int
    } else if occurs_at(s, i, pat) {
        i
    } else {
        first_occurrence(s, pat, i + 1)
    }
}

/// The import that a script line makes at index `j`: `from` stands there,
/// after an `import` earlier on the line, and a string literal follows it;
/// or `require(` stands there and a string literal follows it. Blanks may
/// stand before the literal.
pub open spec fn script_match_at(s: Seq<char>, j: int) -> Option<Seq<char>> {
    if occurs_at(s, j, word_from()) && first_occurrence(s, word_import(), 0) + 6 <= j
        && quoted_at(s, skip_blanks(s, j + 4)) is Some {
        quoted_at(s, skip_blanks(s, j + 4))
    } else if occurs_at(s, j, word_require()) {
        quoted_at(s, skip_blanks(s, j + 8))
    } else {
        None
    }
}

/// The first import that a script line makes at or after index `j`.
pub open spec fn script_import_from(s: Seq<char>, j: int) -> Option<Seq<char>>
    decreases s.len() - j,
{
    if j < 0 || j >= s.len() {
        None
    } else if script_match_at(s, j) is Some {
        script_match_at(s, j)
    } else {
        script_import_from(s, j + 1)
    }
}

/// The string that a JavaScript or TypeScript line imports: the leftmost
/// place on the line where an import is made decides.
pub open spec fn script_import(line: Seq<char>) -> Option<Seq<char>> {
    script_import_from(line, 0)
}

/// What one line imports.
pub open spec fn line_import(lang: Language, line: Seq<char>) -> Option<Seq<char>> {
    match lang {
        Language::Python => python_import(line),
        Language::Script => script_import(line),
    }
}

/// What the given lines import, in the order of the lines.
pub open spec fn imports_of_lines(lang: Language, lines: Seq<Seq<char>>) -> Seq<Seq<char>>
    decreases lines.len(),
{
    if lines.len() == 0 {
        Seq::<Seq<char>>::empty()
    } else {
        let before = imports_of_lines(lang, lines.drop_last());
        match line_import(lang, lines.last()) {
            Some(found) => before.push(found),
            None => before,
        }
    }
}

/// The raw imports of a source text, exactly as written, in the order of
/// their lines.
pub open spec fn imports_in(lang: Language, content: Seq<char>) -> Seq<Seq<char>> {
    imports_of_lines(lang, split(content, '\n'))
}

fn same_letter_exec(c: char, low: char) -> (r: bool)
    ensures
        r == same_letter(c, low),
{
    c == low || ('a' <= low && low <= 'z' && c as u32 + 32 == low as u32)
}

fn extension_is(ext: &Vec<char>, word: &Vec<char>) -> (r: bool)
    ensures
        r == is_extension(ext@, word@),
{
    if ext.len() != word.len() {
        return false;
    }
    let mut i: usize = 0;
    while i < ext.len()
        invariant
            i <= ext.len(),
            ext.len() == word.len(),
            forall|k: int| 0 <= k < i ==> same_letter(#[trigger] ext@[k], word@[k]),
        decreases ext.len() - i,
    {
        if !same_letter_exec(ext[i], word[i]) {
            return false;
        }
        i = i + 1;
    }
    true
}

fn word_char_or_dot(c: char) -> (r: bool)
    ensures
        r == is_module_char(c),
{
    word_char(c) || c == '.'
}

fn module_run_end(s: &Vec<char>, from: usize) -> (r: usize)
    requires
        from <= s.len(),
    ensures
        r == module_end(s@, from as int),
        from <= r <= s.len(),
{
    let mut i: usize = from;
    while i < s.len() && word_char_or_dot(s[i])
        invariant
            from <= i <= s.len(),
            module_end(s@, from as int) == module_end(s@, i as int),
        decreases s.len() - i,
    {
        i = i + 1;
    }
    i
}

fn dotted_name(t: &Vec<char>) -> (r: bool)
    ensures
        r == is_dotted_name(t@),
{
    if t.len() == 0 || t[t.len() - 1] == '.' {
        return false;
    }
    let mut i: usize = 0;
    while i < t.len()
        invariant
            i <= t.len(),
            forall|k: int| 0 <= k < i ==> #[trigger] name_char_ok(t@, k),
        decreases t.len() - i,
    {
        let c = t[i];
        let ok = if c == '.' {
            i > 0 && t[i - 1] != '.'
        } else {
            word_char(c) && (!(i == 0 || t[i - 1] == '.') || !('0' <= c && c <= '9'))
        };
        if !ok {
            assert(!name_char_ok(t@, i as int));
            return false;
        }
        i = i + 1;
    }
    true
}

fn module_token(t: &Vec<char>) -> (r: bool)
    ensures
        r == is_module_token(t@),
{
    if dotted_name(t) {
        return true;
    }
    if t.len() > 1 && t[0] == '.' {
        let rest = slice_of(t, 1, t.len());
        assert(rest@ == t@.skip(1));
        if dotted_name(&rest) {
            return true;
        }
        if t.len() > 2 && t[1] == '.' {
            let rest2 = slice_of(t, 2, t.len());
            assert(rest2@ == t@.skip(2));
            return dotted_name(&rest2);
        }
    }
    false
}

fn keyword(s: &Vec<char>, i: usize, word: &Vec<char>) -> (r: bool)
    ensures
        r == keyword_at(s@, i as int, word@),
{
    if !occurs(s, i, word) {
        return false;
    }
    assert(i + word.len() <= s.len());
    let end: usize = i + word.len();
    end == s.len() || !word_char(s[end])
}

fn opens(s: &Vec<char>, word: &Vec<char>) -> (r: bool)
    ensures
        r == opens_with(s@, word@),
{
    occurs(s, 0, word) && word.len() < s.len() && crate::text::blank(s[word.len()])
}

fn from_word() -> (r: Vec<char>)
    ensures
        r@ == word_from(),
{
    let r = vec!['f', 'r', 'o', 'm'];
    assert(r@ =~= word_from());
    r
}

fn import_word() -> (r: Vec<char>)
    ensures
        r@ == word_import(),
{
    let r = vec!['i', 'm', 'p', 'o', 'r', 't'];
    assert(r@ =~= word_import());
    r
}

fn require_word() -> (r: Vec<char>)
    ensures
        r@ == word_require(),
{
    let r = vec!['r', 'e', 'q', 'u', 'i', 'r', 'e', '('];
    assert(r@ =~= word_require());
    r
}

/// The module that a Python line imports, if it imports one.
pub fn scan_python_line(line: &Vec<char>) -> (r: Option<Vec<char>>)
    ensures
        r is Some == python_import(line@) is Some,
        r matches Some(m) ==> Some(m@) == python_import(line@),
{
    let s = trim(line);
    let from = from_word();
    let import = import_word();
    if opens(&s, &from) {
        let a = skip_blank(&s, 4);
        let b = module_run_end(&s, a);
        let c = skip_blank(&s, b);
        let token = slice_of(&s, a, b);
        if module_token(&token) && b < c && keyword(&s, c, &import) {
            Some(token)
        } else {
            None
        }
    } else if opens(&s, &import) {
        let a = skip_blank(&s, 6);
        let b = module_run_end(&s, a);
        let token = slice_of(&s, a, b);
        if module_token(&token) {
            Some(token)
        } else {
            None
        }
    } else {
        None
    }
}

fn quote(c: char) -> (r: bool)
    ensures
        r == is_quote(c),
{
    c == '\'' || c == '"' || c == '`'
}

fn quoted(s: &Vec<char>, i: usize) -> (r: Option<Vec<char>>)
    ensures
        r is Some == quoted_at(s@, i as int) is Some,
        r matches Some(b) ==> Some(b@) == quoted_at(s@, i as int),
{
    if i < s.len() && quote(s[i]) {
        let close = find_char(s, s[i], i + 1);
        if close < s.len() {
            Some(slice_of(s, i + 1, close))
        } else {
            None
        }
    } else {
        None
    }
}

fn find_word(s: &Vec<char>, word: &Vec<char>) -> (r: usize)
    ensures
        r == first_occurrence(s@, word@, 0),
        r <= s.len(),
{
    let mut i: usize = 0;
    while i < s.len() && !occurs(s, i, word)
        invariant
            i <= s.len(),
            first_occurrence(s@, word@, 0) == first_occurrence(s@, word@, i as int),
        decreases s.len() - i,
    {
        i = i + 1;
    }
    i
}

fn script_match(s: &Vec<char>, j: usize, first_import: usize, from: &Vec<char>, require: &Vec<
    char,
>) -> (r: Option<Vec<char>>)
    requires
        j < s.len(),
        first_import == first_occurrence(s@, word_import(), 0),
        from@ == word_from(),
        require@ == word_require(),
    ensures
        r is Some == script_match_at(s@, j as int) is Some,
        r matches Some(b) ==> Some(b@) == script_match_at(s@, j as int),
{
    if occurs(s, j, from) && j >= 6 && first_import <= j - 6 {
        let at = skip_blank(s, j + 4);
        let found = quoted(s, at);
        if found.is_some() {
            return found;
        }
    }
    if occurs(s, j, require) {
        let at = skip_blank(s, j + 8);
        quoted(s, at)
    } else {
        None
    }
}

/// The string that a JavaScript or TypeScript line imports, if it imports
/// one.
pub fn scan_script_line(line: &Vec<char>) -> (r: Option<Vec<char>>)
    ensures
        r is Some == script_import(line@) is Some,
        r matches Some(m) ==> Some(m@) == script_import(line@),
{
    let from = from_word();
    let import = import_word();
    let require = require_word();
    let first_import = find_word(line, &import);
    let mut j: usize = 0;
    while j < line.len()
        invariant
            j <= line.len(),
            first_import == first_occurrence(line@, word_import(), 0),
            from@ == word_from(),
            require@ == word_require(),
            script_import(line@) == script_import_from(line@, j as int),
        decreases line.len() - j,
    {
        let found = script_match(line, j, first_import, &from, &require);
        if found.is_some() {
            return found;
        }
        j = j + 1;
    }
    None
}

impl Language {
    /// The language of a file, told by the extension of its name; `None`
    /// for a file whose imports are not followed.
    pub fn from_path(path: &FilePath) -> (r: Option<Language>)
        ensures
            r == language_of(path@),
    {
        match path.extension() {
            Some(ext) => {
                let py = vec!['p', 'y'];
                let js = vec!['j', 's'];
                let ts = vec!['t', 's'];
                let jsx = vec!['j', 's', 'x'];
                let tsx = vec!['t', 's', 'x'];
                assert(py@ =~= seq!['p', 'y']);
                assert(js@ =~= seq!['j', 's']);
                assert(ts@ =~= seq!['t', 's']);
                assert(jsx@ =~= seq!['j', 's', 'x']);
                assert(tsx@ =~= seq!['t', 's', 'x']);
                if extension_is(&ext, &py) {
                    Some(Language::Python)
                } else if extension_is(&ext, &js) || extension_is(&ext, &ts) || extension_is(
                    &ext,
                    &jsx,
                ) || extension_is(&ext, &tsx) {
                    Some(Language::Script)
                } else {
                    None
                }
            },
            None => None,
        }
    }

    /// What one line imports, if it imports anything.
    pub fn scan_line(&self, line: &Vec<char>) -> (r: Option<Vec<char>>)
        ensures
            r is Some == line_import(*self, line@) is Some,
            r matches Some(m) ==> Some(m@) == line_import(*self, line@),
    {
        match self {
            Language::Python => scan_python_line(line),
            Language::Script => scan_script_line(line),
        }
    }

    /// The raw imports of a source text, as characters.
    pub fn extract_chars(&self, content: &Vec<char>) -> (r: Vec<Vec<char>>)
        ensures
            rows(r@) == imports_in(*self, content@),
    {
        let lines = split_on(content, '\n');
        let mut out: Vec<Vec<char>> = Vec::new();
        let mut i: usize = 0;
        while i < lines.len()
            invariant
                i <= lines.len(),
                rows(out@) == imports_of_lines(*self, rows(lines@).take(i as int)),
            decreases lines.len() - i,
        {
            assert(rows(lines@).take(i + 1).drop_last() == rows(lines@).take(i as int));
            assert(rows(lines@).take(i + 1).last() == lines[i as int]@);
            let ghost before = rows(out@);
            match self.scan_line(&lines[i]) {
                Some(found) => {
                    out.push(found);
                    assert(rows(out@) == before.push(found@));
                },
                None => {},
            }
            i = i + 1;
        }
        assert(rows(lines@).take(lines.len() as int) == rows(lines@));
        out
    }

    /// The raw imports of a source text, exactly as written, in the order of
    /// their lines. A text without import statements yields an empty list.
    pub fn extract(&self, content: &str) -> (r: Vec<String>)
        ensures
            texts(r@) == imports_in(*self, content@),
    {
        let chars = chars_of(content);
        let found = self.extract_chars(&chars);
        strings_of(&found)
    }
}

} // verus!
