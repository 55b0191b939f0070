//! What is handed on once the closure is known: the listing of the files,
//! and their contents in one text, each under its path.

use crate::path::{append_text, FilePath, PathModel};
use crate::text::{chars_of, string_of, texts};
use vstd::prelude::*;

verus! {

/// What opens the line that names a file.
pub open spec fn tag_open() -> Seq<char> {
    seq!['\n', '<', 'f', 'i', 'l', 'e', '>']
}

/// What closes the line that names a file.
pub open spec fn tag_close() -> Seq<char> {
    seq!['<', '/', 'f', 'i', 'l', 'e', '>', '\n']
}

/// The heading of the listing.
pub open spec fn listing_head() -> Seq<char> {
    seq![
        '\n',
        'F',
        'i',
        'l',
        'e',
        's',
        ' ',
        't',
        'o',
        ' ',
        'b',
        'e',
        ' ',
        'c',
        'o',
        'p',
        'i',
        'e',
        'd',
        ':',
        '\n',
    ]
}

/// The path as shown to the reader: relative to `base` where the path lies
/// at or below it, else as it is.
pub open spec fn shown_path(path: PathModel, base: PathModel) -> PathModel {
    match path.relative_to(base) {
        Some(rel) => rel,
        None => path,
    }
}

/// One file in the bundle: its path between tags on a line of its own,
/// then its content and a line feed.
pub open spec fn section(name: Seq<char>, content: Seq<char>) -> Seq<char> {
    tag_open() + name + tag_close() + content + seq!['\n']
}

/// The sections of the given files, one after the other.
pub open spec fn bundled(names: Seq<Seq<char>>, contents: Seq<Seq<char>>) -> Seq<char>
    decreases names.len(),
{
    if names.len() == 0 || contents.len() != names.len() {
        Seq::<char>::empty()
    } else {
        bundled(names.drop_last(), contents.drop_last()) + section(names.last(), contents.last())
    }
}

/// The listing: a heading, then each path on a line of its own after `- `,
/// then an empty line.
pub open spec fn listed(names: Seq<Seq<char>>) -> Seq<char> {
    listing_head() + listed_lines(names) + seq!['\n']
}

/// One line for each path: `- `, the path, a line feed.
pub open spec fn listed_lines(names: Seq<Seq<char>>) -> Seq<char>
    decreases names.len(),
{
    if names.len() == 0 {
        Seq::<char>::empty()
    } else {
        listed_lines(names.drop_last()) + seq!['-', ' '] + names.last() + seq!['\n']
    }
}

/// The path as shown to the reader.
pub fn display_path(path: &FilePath, base: &FilePath) -> (r: FilePath)
    ensures
        r@ == shown_path(path@, base@),
{
    match path.relative_to(base) {
        Some(rel) => rel,
        None => path.clone(),
    }
}

/// The contents of the files in one text, each under its name. `names` and
/// `contents` go together index by index; where their lengths differ there
/// is nothing to bundle.
pub fn bundle(names: &Vec<String>, contents: &Vec<String>) -> (r: String)
    ensures
        r@ == bundled(texts(names@), texts(contents@)),
{
    let mut out: Vec<char> = Vec::new();
    if names.len() != contents.len() {
        return string_of(&out);
    }
    let mut i: usize = 0;
    assert(texts(names@).take(0) =~= Seq::<Seq<char>>::empty());
    while i < names.len()
        invariant
            i <= names.len(),
            names.len() == contents.len(),
            out@ == bundled(texts(names@).take(i as int), texts(contents@).take(i as int)),
        decreases names.len() - i,
    {
        assert(texts(names@).take(i + 1).drop_last() =~= texts(names@).take(i as int));
        assert(texts(contents@).take(i + 1).drop_last() =~= texts(contents@).take(i as int));
        assert(texts(names@).take(i + 1).last() == names[i as int]@);
        assert(texts(contents@).take(i + 1).last() == contents[i as int]@);
        let ghost before = out@;
        let open = vec!['\n', '<', 'f', 'i', 'l', 'e', '>'];
        let close = vec!['<', '/', 'f', 'i', 'l', 'e', '>', '\n'];
        assert(open@ =~= tag_open());
        assert(close@ =~= tag_close());
        append_text(&mut out, &open);
        append_text(&mut out, &chars_of(names[i].as_str()));
        append_text(&mut out, &close);
        append_text(&mut out, &chars_of(contents[i].as_str()));
        out.push('\n');
        assert(out@ =~= before + section(names[i as int]@, contents[i as int]@));
        i = i + 1;
    }
    assert(texts(names@).take(names.len() as int) =~= texts(names@));
    assert(texts(contents@).take(contents.len() as int) =~= texts(contents@));
    string_of(&out)
}

/// The listing of the files that make up the closure.
pub fn listing(names: &Vec<String>) -> (r: String)
    ensures
        r@ == listed(texts(names@)),
{
    let mut out = vec![
        '\n',
        'F',
        'i',
        'l',
        'e',
        's',
        ' ',
        't',
        'o',
        ' ',
        'b',
        'e',
        ' ',
        'c',
        'o',
        'p',
        'i',
        'e',
        'd',
        ':',
        '\n',
    ];
    assert(out@ =~= listing_head());
    let mut i: usize = 0;
    assert(texts(names@).take(0) =~= Seq::<Seq<char>>::empty());
    assert(out@ =~= listing_head() + listed_lines(texts(names@).take(0)));
    while i < names.len()
        invariant
            i <= names.len(),
            out@ == listing_head() + listed_lines(texts(names@).take(i as int)),
        decreases names.len() - i,
    {
        assert(texts(names@).take(i + 1).drop_last() =~= texts(names@).take(i as int));
        assert(texts(names@).take(i + 1).last() == names[i as int]@);
        let ghost before = out@;
        out.push('-');
        out.push(' ');
        append_text(&mut out, &chars_of(names[i].as_str()));
        out.push('\n');
        assert(out@ =~= before + seq!['-', ' '] + names[i as int]@ + seq!['\n']);
        assert(out@ =~= listing_head() + (listed_lines(texts(names@).take(i as int)) + seq!['-', ' ']
            + names[i as int]@ + seq!['\n']));
        i = i + 1;
    }
    assert(texts(names@).take(names.len() as int) =~= texts(names@));
    out.push('\n');
    string_of(&out)
}

} // verus!
