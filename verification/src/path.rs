//! Lexical file paths. A path is whether it starts at the file system's
//! root, and its components in order. Empty components and `.` say nothing
//! and are dropped when a path is read; `..` is kept, since only the file
//! system can say where it leads.

use crate::text::{chars_of, rows, same_text, slice_of, split, split_on, string_of};
use vstd::prelude::*;

verus! {

/// What a path is: the mathematical value that contracts speak of.
#[verifier::ext_equal]
pub struct PathModel {
    pub absolute: bool,
    pub parts: Seq<Seq<char>>,
}

/// A component that a path keeps: not empty, not `.`, and free of `/`.
pub open spec fn is_part(p: Seq<char>) -> bool {
    p.len() > 0 && p != seq!['.'] && !p.contains('/')
}

/// A piece between separators that says something: not empty and not `.`.
pub open spec fn says_something(p: Seq<char>) -> bool {
    p.len() > 0 && p != seq!['.']
}

/// The pieces that say something, in order.
pub open spec fn normal_parts(pieces: Seq<Seq<char>>) -> Seq<Seq<char>>
    decreases pieces.len(),
{
    if pieces.len() == 0 {
        Seq::<Seq<char>>::empty()
    } else {
        let before = normal_parts(pieces.drop_last());
        if says_something(pieces.last()) {
            before.push(pieces.last())
        } else {
            before
        }
    }
}

/// The path that a text denotes.
pub open spec fn path_of(s: Seq<char>) -> PathModel {
    PathModel { absolute: s.len() > 0 && s[0] == '/', parts: normal_parts(split(s, '/')) }
}

/// The components written one after the other with `/` between them.
pub open spec fn joined_parts(parts: Seq<Seq<char>>) -> Seq<char>
    decreases parts.len(),
{
    if parts.len() == 0 {
        Seq::<char>::empty()
    } else if parts.len() == 1 {
        parts[0]
    } else {
        joined_parts(parts.drop_last()) + seq!['/'] + parts.last()
    }
}

/// The index of the last `.` of a name, or -1 if it has none.
pub open spec fn last_dot(name: Seq<char>) -> int
    decreases name.len(),
{
    if name.len() == 0 {
        -1
    } else if name.last() == '.' {
        name.len() - 1
    } else {
        last_dot(name.drop_last())
    }
}

/// Whether a file name has an extension: it is not `..`, and its last `.` is
/// not its first character.
pub open spec fn has_extension(name: Seq<char>) -> bool {
    name != seq!['.', '.'] && last_dot(name) > 0
}

/// What follows the last `.` of a name that has an extension.
pub open spec fn extension_of(name: Seq<char>) -> Option<Seq<char>> {
    if has_extension(name) {
        Some(name.skip(last_dot(name) + 1))
    } else {
        None
    }
}

/// The name without its extension and the `.` before it.
pub open spec fn stem_of(name: Seq<char>) -> Seq<char> {
    if has_extension(name) {
        name.take(last_dot(name))
    } else {
        name
    }
}

impl PathModel {
    /// Every component is one that a path keeps.
    pub open spec fn wf(self) -> bool {
        forall|i: int| 0 <= i < self.parts.len() ==> is_part(#[trigger] self.parts[i])
    }

    /// The path as text: `/` first if it is absolute, then the components
    /// with `/` between them.
    pub open spec fn rendered(self) -> Seq<char> {
        if self.absolute {
            seq!['/'] + joined_parts(self.parts)
        } else {
            joined_parts(self.parts)
        }
    }

    /// `other` adjoined to `self`: an absolute `other` stands for itself, a
    /// relative one continues `self`.
    pub open spec fn joined(self, other: PathModel) -> PathModel {
        if other.absolute {
            other
        } else {
            PathModel { absolute: self.absolute, parts: self.parts + other.parts }
        }
    }

    /// The path without its last component, if it has one.
    pub open spec fn parent(self) -> Option<PathModel> {
        if self.parts.len() == 0 {
            None
        } else {
            Some(PathModel { absolute: self.absolute, parts: self.parts.drop_last() })
        }
    }

    /// `self` is `base` or lies below it, component by component.
    pub open spec fn starts_with(self, base: PathModel) -> bool {
        self.absolute == base.absolute && base.parts.is_prefix_of(self.parts)
    }

    /// What leads from `base` to `self`, as a relative path.
    pub open spec fn relative_to(self, base: PathModel) -> Option<PathModel> {
        if self.starts_with(base) {
            Some(PathModel { absolute: false, parts: self.parts.skip(base.parts.len() as int) })
        } else {
            None
        }
    }

    /// The last component, if it names a file or directory.
    pub open spec fn file_name(self) -> Option<Seq<char>> {
        if self.parts.len() == 0 || self.parts.last() == seq!['.', '.'] {
            None
        } else {
            Some(self.parts.last())
        }
    }

    /// The extension of the file name.
    pub open spec fn extension(self) -> Option<Seq<char>> {
        match self.file_name() {
            Some(name) => extension_of(name),
            None => None,
        }
    }

    /// The path with the extension of its file name replaced by `ext`, or
    /// with `.` and `ext` added where it has none. A path without a file
    /// name stays as it is.
    pub open spec fn with_extension(self, ext: Seq<char>) -> PathModel {
        match self.file_name() {
            Some(name) => PathModel {
                absolute: self.absolute,
                parts: self.parts.drop_last().push(stem_of(name) + seq!['.'] + ext),
            },
            None => self,
        }
    }
}

/// No piece of a split holds the separator.
pub proof fn lemma_split_pieces_free(s: Seq<char>, sep: char)
    ensures
        split(s, sep).len() >= 1,
        forall|k: int| 0 <= k < split(s, sep).len() ==> !(#[trigger] split(s, sep)[k]).contains(sep),
    decreases s.len(),
{
    if s.len() > 0 {
        lemma_split_pieces_free(s.drop_last(), sep);
        let before = split(s.drop_last(), sep);
        if s.last() != sep {
            let grown = before.last().push(s.last());
            assert forall|j: int| 0 <= j < grown.len() implies grown[j] != sep by {
                if j < before.last().len() {
                    assert(before.last().contains(grown[j]));
                }
            }
        }
    }
}

/// The parts kept from pieces that are free of `/` form a well-formed path.
pub proof fn lemma_normal_parts_wf(pieces: Seq<Seq<char>>)
    requires
        forall|k: int| 0 <= k < pieces.len() ==> !(#[trigger] pieces[k]).contains('/'),
    ensures
        forall|k: int|
            0 <= k < normal_parts(pieces).len() ==> is_part(#[trigger] normal_parts(pieces)[k]),
    decreases pieces.len(),
{
    if pieces.len() > 0 {
        let shorter = pieces.drop_last();
        assert forall|k: int| 0 <= k < shorter.len() implies !(#[trigger] shorter[k]).contains(
            '/',
        ) by {
            assert(shorter[k] == pieces[k]);
        }
        lemma_normal_parts_wf(shorter);
        let before = normal_parts(shorter);
        assert forall|k: int| 0 <= k < normal_parts(pieces).len() implies is_part(
            #[trigger] normal_parts(pieces)[k],
        ) by {
            if k < before.len() {
                assert(normal_parts(pieces)[k] == before[k]);
            } else {
                assert(normal_parts(pieces)[k] == pieces.last());
                assert(pieces.last() == pieces[pieces.len() - 1]);
            }
        }
    }
}

/// The last `.` of a name lies inside the name, and no `.` follows it.
pub proof fn lemma_last_dot_bounds(name: Seq<char>)
    ensures
        -1 <= last_dot(name) < name.len(),
        last_dot(name) >= 0 ==> name[last_dot(name)] == '.',
        forall|k: int| last_dot(name) < k < name.len() ==> name[k] != '.',
    decreases name.len(),
{
    if name.len() > 0 && name.last() != '.' {
        let t = name.drop_last();
        lemma_last_dot_bounds(t);
        assert forall|k: int| last_dot(name) < k < name.len() implies name[k] != '.' by {
            if k < t.len() {
                assert(name[k] == t[k]);
            }
        }
    }
}

/// A text that is one component denotes the relative path of that
/// component.
pub proof fn lemma_single_part(name: Seq<char>)
    requires
        is_part(name),
    ensures
        path_of(name) == (PathModel { absolute: false, parts: seq![name] }),
    decreases name.len(),
{
    lemma_split_single(name);
    let pieces = split(name, '/');
    assert(pieces == seq![name]);
    assert(pieces.drop_last() == Seq::<Seq<char>>::empty());
    assert(normal_parts(pieces.drop_last()) == Seq::<Seq<char>>::empty());
    assert(normal_parts(pieces) == seq![name]);
    assert(name[0] != '/') by {
        assert(name.contains(name[0]));
    }
    assert(path_of(name) =~= (PathModel { absolute: false, parts: seq![name] }));
}

/// A text without `/` is its own single piece.
pub proof fn lemma_split_single(s: Seq<char>)
    requires
        !s.contains('/'),
    ensures
        split(s, '/') == seq![s],
    decreases s.len(),
{
    if s.len() > 0 {
        let t = s.drop_last();
        assert forall|j: int| 0 <= j < t.len() implies t[j] != '/' by {
            assert(s.contains(s[j]));
        }
        lemma_split_single(t);
        assert(s.contains(s.last()));
        assert(split(s, '/') =~= seq![t.push(s.last())]);
        assert(t.push(s.last()) =~= s);
    } else {
        assert(s =~= Seq::<char>::empty());
    }
}

/// The text of well-formed components ends in no `/`, starts with none and
/// holds no `//`.
pub proof fn lemma_joined_parts_plain(parts: Seq<Seq<char>>)
    requires
        forall|i: int| 0 <= i < parts.len() ==> is_part(#[trigger] parts[i]),
    ensures
        parts.len() > 0 ==> joined_parts(parts).len() > 0 && joined_parts(parts)[0] != '/'
            && joined_parts(parts).last() != '/',
        forall|i: int|
            0 <= i < joined_parts(parts).len() - 1 ==> !(#[trigger] joined_parts(parts)[i] == '/'
                && joined_parts(parts)[i + 1] == '/'),
    decreases parts.len(),
{
    if parts.len() == 1 {
        let p = parts[0];
        assert forall|i: int| 0 <= i < p.len() implies p[i] != '/' by {
            assert(p.contains(p[i]));
        }
    } else if parts.len() > 1 {
        let shorter = parts.drop_last();
        assert forall|i: int| 0 <= i < shorter.len() implies is_part(#[trigger] shorter[i]) by {
            assert(shorter[i] == parts[i]);
        }
        lemma_joined_parts_plain(shorter);
        let head = joined_parts(shorter);
        let p = parts.last();
        assert(is_part(parts[parts.len() - 1]));
        assert forall|i: int| 0 <= i < p.len() implies p[i] != '/' by {
            assert(p.contains(p[i]));
        }
        let whole = head + seq!['/'] + p;
        assert(joined_parts(parts) == whole);
        assert forall|i: int| 0 <= i < whole.len() - 1 implies !(#[trigger] whole[i] == '/'
            && whole[i + 1] == '/') by {
            if i + 1 < head.len() {
                assert(whole[i] == head[i] && whole[i + 1] == head[i + 1]);
            } else if i + 1 == head.len() {
                assert(whole[i] == head.last());
            } else if i == head.len() {
                assert(whole[i + 1] == p[0]);
            } else {
                assert(whole[i] == p[i - head.len() - 1]);
            }
        }
        assert(whole[0] == head[0]);
        assert(whole.last() == p.last());
    }
}

/// The text of a well-formed relative path is a plain relative path.
pub proof fn lemma_relative_is_plain(m: PathModel)
    requires
        m.wf(),
        !m.absolute,
    ensures
        crate::context::is_plain_relative(m.rendered()),
{
    lemma_joined_parts_plain(m.parts);
}

/// Cutting a text that holds a separator between two texts gives the pieces
/// of the first, then the pieces of the second.
proof fn lemma_split_around(a: Seq<char>, b: Seq<char>, sep: char)
    ensures
        split(a + seq![sep] + b, sep) == split(a, sep) + split(b, sep),
    decreases b.len(),
{
    let s = a + seq![sep] + b;
    if b.len() == 0 {
        assert(s.drop_last() =~= a);
        assert(split(b, sep) =~= seq![Seq::<char>::empty()]);
        assert(split(s, sep) =~= split(a, sep) + split(b, sep));
    } else {
        let shorter = b.drop_last();
        assert(s.drop_last() =~= a + seq![sep] + shorter);
        assert(s.last() == b.last());
        lemma_split_around(a, shorter, sep);
        lemma_split_pieces_free(shorter, sep);
        assert(split(s, sep) =~= split(a, sep) + split(b, sep));
    }
}

/// The text of well-formed components, cut at `/`, gives the components
/// back.
proof fn lemma_split_joined(parts: Seq<Seq<char>>)
    requires
        parts.len() > 0,
        forall|i: int| 0 <= i < parts.len() ==> is_part(#[trigger] parts[i]),
    ensures
        split(joined_parts(parts), '/') == parts,
    decreases parts.len(),
{
    if parts.len() == 1 {
        lemma_split_single(parts[0]);
        assert(parts =~= seq![parts[0]]);
    } else {
        let shorter = parts.drop_last();
        assert forall|i: int| 0 <= i < shorter.len() implies is_part(#[trigger] shorter[i]) by {
            assert(shorter[i] == parts[i]);
        }
        lemma_split_joined(shorter);
        assert(is_part(parts[parts.len() - 1]));
        lemma_split_single(parts.last());
        lemma_split_around(joined_parts(shorter), parts.last(), '/');
        assert(shorter + seq![parts.last()] =~= parts);
    }
}

/// Pieces that are all components are all kept.
proof fn lemma_parts_are_kept(lead: Seq<Seq<char>>, parts: Seq<Seq<char>>)
    requires
        forall|i: int| 0 <= i < lead.len() ==> !says_something(#[trigger] lead[i]),
        forall|i: int| 0 <= i < parts.len() ==> is_part(#[trigger] parts[i]),
    ensures
        normal_parts(lead + parts) == parts,
    decreases lead.len() + parts.len(),
{
    let all = lead + parts;
    if parts.len() > 0 {
        let shorter = parts.drop_last();
        assert forall|i: int| 0 <= i < shorter.len() implies is_part(#[trigger] shorter[i]) by {
            assert(shorter[i] == parts[i]);
        }
        assert(all.drop_last() =~= lead + shorter);
        assert(all.last() == parts.last());
        assert(is_part(parts[parts.len() - 1]));
        lemma_parts_are_kept(lead, shorter);
        assert(shorter.push(parts.last()) =~= parts);
    } else if lead.len() > 0 {
        let shorter = lead.drop_last();
        assert forall|i: int| 0 <= i < shorter.len() implies !says_something(
            #[trigger] shorter[i],
        ) by {
            assert(shorter[i] == lead[i]);
        }
        assert(all.drop_last() =~= shorter + parts);
        assert(all.last() == lead[lead.len() - 1]);
        lemma_parts_are_kept(shorter, parts);
    } else {
        assert(all =~= Seq::<Seq<char>>::empty());
        assert(parts =~= Seq::<Seq<char>>::empty());
    }
}

/// Every text denotes a well-formed path.
pub proof fn law_every_text_is_a_path(s: Seq<char>)
    ensures
        path_of(s).wf(),
{
    lemma_split_pieces_free(s, '/');
    lemma_normal_parts_wf(split(s, '/'));
}

/// Writing a path down and reading it again gives the same path.
pub proof fn law_render_then_parse(m: PathModel)
    requires
        m.wf(),
    ensures
        path_of(m.rendered()) == m,
{
    let text = joined_parts(m.parts);
    let none = Seq::<Seq<char>>::empty();
    let blank = seq![Seq::<char>::empty()];
    lemma_joined_parts_plain(m.parts);
    if m.parts.len() > 0 {
        lemma_split_joined(m.parts);
    } else {
        assert(text =~= Seq::<char>::empty());
    }
    if m.absolute {
        assert(m.rendered() =~= Seq::<char>::empty() + seq!['/'] + text);
        lemma_split_around(Seq::<char>::empty(), text, '/');
        if m.parts.len() > 0 {
            lemma_parts_are_kept(blank, m.parts);
            assert(path_of(m.rendered()).parts == m.parts);
        } else {
            assert(split(m.rendered(), '/') =~= blank + blank);
            lemma_parts_are_kept(blank + blank, none);
            assert(blank + blank + none =~= blank + blank);
            assert(path_of(m.rendered()).parts =~= m.parts);
        }
        assert(m.rendered()[0] == '/');
    } else {
        if m.parts.len() > 0 {
            lemma_parts_are_kept(none, m.parts);
            assert(none + m.parts =~= m.parts);
            assert(path_of(m.rendered()).parts == m.parts);
        } else {
            lemma_parts_are_kept(blank, none);
            assert(blank + none =~= blank);
            assert(path_of(m.rendered()).parts =~= m.parts);
        }
    }
    assert(path_of(m.rendered()) =~= m);
}

/// A lexical file path.
#[derive(Debug, PartialEq, Eq)]
pub struct FilePath {
    absolute: bool,
    parts: Vec<Vec<char>>,
}

pub(crate) fn append_text(out: &mut Vec<char>, t: &Vec<char>)
    ensures
        final(out)@ == old(out)@ + t@,
{
    let mut i: usize = 0;
    while i < t.len()
        invariant
            i <= t.len(),
            out@ == old(out)@ + t@.take(i as int),
        decreases t.len() - i,
    {
        out.push(t[i]);
        i = i + 1;
    }
    assert(t@.take(t.len() as int) == t@);
}

pub(crate) fn copy_text(t: &Vec<char>) -> (r: Vec<char>)
    ensures
        r@ == t@,
{
    slice_of(t, 0, t.len())
}

pub(crate) fn copy_rows(t: &Vec<Vec<char>>) -> (r: Vec<Vec<char>>)
    ensures
        rows(r@) == rows(t@),
{
    let mut out: Vec<Vec<char>> = Vec::new();
    let mut i: usize = 0;
    while i < t.len()
        invariant
            i <= t.len(),
            rows(out@) == rows(t@).take(i as int),
        decreases t.len() - i,
    {
        let ghost before = rows(out@);
        out.push(copy_text(&t[i]));
        assert(rows(out@) == before.push(t[i as int]@));
        assert(rows(t@).take(i + 1) == rows(t@).take(i as int).push(t[i as int]@));
        i = i + 1;
    }
    assert(rows(t@).take(t.len() as int) == rows(t@));
    out
}

impl Clone for FilePath {
    fn clone(&self) -> (r: Self)
        ensures
            r@ == self@,
    {
        proof {
            use_type_invariant(self);
        }
        let parts = copy_rows(&self.parts);
        FilePath { absolute: self.absolute, parts }
    }
}

impl FilePath {
    /// Every component is one that a path keeps.
    #[verifier::type_invariant]
    pub open spec fn well_formed(&self) -> bool {
        self@.wf()
    }

    /// The path that this value holds.
    pub closed spec fn view(&self) -> PathModel {
        PathModel { absolute: self.absolute, parts: rows(self.parts@) }
    }

    /// Reads a path from its characters.
    pub fn from_chars(s: &Vec<char>) -> (r: FilePath)
        ensures
            r@ == path_of(s@),
    {
        let pieces = split_on(s, '/');
        let mut parts: Vec<Vec<char>> = Vec::new();
        let mut i: usize = 0;
        proof {
            lemma_split_pieces_free(s@, '/');
        }
        while i < pieces.len()
            invariant
                i <= pieces.len(),
                rows(pieces@) == split(s@, '/'),
                rows(parts@) == normal_parts(rows(pieces@).take(i as int)),
                forall|k: int|
                    0 <= k < pieces.len() ==> !(#[trigger] rows(pieces@)[k]).contains('/'),
                forall|k: int| 0 <= k < parts.len() ==> is_part(#[trigger] rows(parts@)[k]),
            decreases pieces.len() - i,
        {
            let piece = &pieces[i];
            assert(rows(pieces@).take(i + 1).drop_last() == rows(pieces@).take(i as int));
            assert(rows(pieces@).take(i + 1).last() == piece@);
            assert(rows(pieces@)[i as int] == piece@);
            let only_dot = piece.len() == 1 && piece[0] == '.';
            proof {
                if only_dot {
                    assert(piece@ == seq!['.']);
                } else if piece.len() == 1 {
                    assert(piece@[0] != seq!['.'][0]);
                }
            }
            if piece.len() > 0 && !only_dot {
                parts.push(copy_text(piece));
                assert(rows(parts@) == normal_parts(rows(pieces@).take(i as int)).push(piece@));
            }
            i = i + 1;
        }
        assert(rows(pieces@).take(pieces.len() as int) == rows(pieces@));
        let absolute = s.len() > 0 && s[0] == '/';
        assert forall|k: int| 0 <= k < parts.len() implies is_part(#[trigger] rows(parts@)[k]) by {}
        FilePath { absolute, parts }
    }

    /// Reads a path from a string.
    pub fn parse(s: &str) -> (r: FilePath)
        ensures
            r@ == path_of(s@),
    {
        let chars = chars_of(s);
        FilePath::from_chars(&chars)
    }

    /// The characters of the path as text.
    pub fn to_chars(&self) -> (r: Vec<char>)
        ensures
            r@ == self@.rendered(),
    {
        let mut out: Vec<char> = Vec::new();
        if self.absolute {
            out.push('/');
        }
        let ghost lead: Seq<char> = out@;
        let mut i: usize = 0;
        while i < self.parts.len()
            invariant
                i <= self.parts.len(),
                lead == if self.absolute {
                    seq!['/']
                } else {
                    Seq::<char>::empty()
                },
                out@ == lead + joined_parts(rows(self.parts@).take(i as int)),
            decreases self.parts.len() - i,
        {
            let ghost upto = rows(self.parts@).take(i + 1);
            assert(upto.drop_last() == rows(self.parts@).take(i as int));
            assert(upto.last() == self.parts[i as int]@);
            if i > 0 {
                out.push('/');
            }
            append_text(&mut out, &self.parts[i]);
            proof {
                if i == 0 {
                    assert(upto.len() == 1);
                    assert(joined_parts(upto.drop_last()) == Seq::<char>::empty());
                    assert(out@ == lead + self.parts[i as int]@);
                } else {
                    assert(out@ == lead + (joined_parts(upto.drop_last()) + seq!['/']
                        + upto.last()));
                }
            }
            i = i + 1;
        }
        assert(rows(self.parts@).take(self.parts.len() as int) == rows(self.parts@));
        assert(out@ == self@.rendered());
        out
    }

    /// The path as text.
    pub fn render(&self) -> (r: String)
        ensures
            r@ == self@.rendered(),
    {
        let chars = self.to_chars();
        string_of(&chars)
    }

    /// Whether the path starts at the root of the file system.
    pub fn is_absolute(&self) -> (r: bool)
        ensures
            r == self@.absolute,
    {
        self.absolute
    }

    /// Whether two paths are the same path.
    pub fn same(&self, other: &FilePath) -> (r: bool)
        ensures
            r == (self@ == other@),
    {
        if self.absolute != other.absolute || self.parts.len() != other.parts.len() {
            assert(rows(self.parts@).len() == self.parts.len());
            assert(rows(other.parts@).len() == other.parts.len());
            return false;
        }
        let mut i: usize = 0;
        while i < self.parts.len()
            invariant
                i <= self.parts.len(),
                self.parts.len() == other.parts.len(),
                rows(self.parts@).take(i as int) == rows(other.parts@).take(i as int),
            decreases self.parts.len() - i,
        {
            if !same_text(&self.parts[i], &other.parts[i]) {
                assert(rows(self.parts@)[i as int] != rows(other.parts@)[i as int]);
                return false;
            }
            assert(rows(self.parts@).take(i + 1) == rows(self.parts@).take(i as int).push(
                self.parts[i as int]@,
            ));
            assert(rows(other.parts@).take(i + 1) == rows(other.parts@).take(i as int).push(
                other.parts[i as int]@,
            ));
            i = i + 1;
        }
        assert(rows(self.parts@).take(self.parts.len() as int) == rows(self.parts@));
        assert(rows(other.parts@).take(other.parts.len() as int) == rows(other.parts@));
        assert(self@ =~= other@);
        true
    }

    /// `other` adjoined to this path.
    pub fn join(&self, other: &FilePath) -> (r: FilePath)
        ensures
            r@ == self@.joined(other@),
    {
        proof {
            use_type_invariant(self);
            use_type_invariant(other);
        }
        if other.absolute {
            return other.clone();
        }
        let mut parts = copy_rows(&self.parts);
        extend_rows(&mut parts, &other.parts, 0, other.parts.len());
        assert(rows(other.parts@).subrange(0, other.parts.len() as int) == rows(other.parts@));
        proof {
            let all = rows(self.parts@) + rows(other.parts@);
            assert forall|k: int| 0 <= k < all.len() implies is_part(#[trigger] all[k]) by {
                if k < rows(self.parts@).len() {
                    assert(all[k] == self@.parts[k]);
                } else {
                    assert(all[k] == other@.parts[k - rows(self.parts@).len()]);
                }
            }
        }
        FilePath { absolute: self.absolute, parts }
    }

    /// The path without its last component; `None` where it has none.
    pub fn parent(&self) -> (r: Option<FilePath>)
        ensures
            r is Some == self@.parent() is Some,
            r matches Some(p) ==> Some(p@) == self@.parent(),
    {
        proof {
            use_type_invariant(self);
        }
        if self.parts.len() == 0 {
            return None;
        }
        let mut parts: Vec<Vec<char>> = Vec::new();
        extend_rows(&mut parts, &self.parts, 0, self.parts.len() - 1);
        proof {
            let kept = rows(self.parts@).subrange(0, self.parts.len() - 1);
            assert(rows(parts@) == kept);
            assert(kept == rows(self.parts@).drop_last());
            assert forall|k: int| 0 <= k < kept.len() implies is_part(#[trigger] kept[k]) by {
                assert(kept[k] == self@.parts[k]);
            }
        }
        Some(FilePath { absolute: self.absolute, parts })
    }

    /// Whether this path is `base` or lies below it.
    pub fn starts_with(&self, base: &FilePath) -> (r: bool)
        ensures
            r == self@.starts_with(base@),
    {
        if self.absolute != base.absolute || base.parts.len() > self.parts.len() {
            assert(rows(self.parts@).len() == self.parts.len());
            assert(rows(base.parts@).len() == base.parts.len());
            return false;
        }
        let mut i: usize = 0;
        while i < base.parts.len()
            invariant
                i <= base.parts.len() <= self.parts.len(),
                rows(base.parts@).take(i as int) == rows(self.parts@).take(i as int),
            decreases base.parts.len() - i,
        {
            if !same_text(&base.parts[i], &self.parts[i]) {
                assert(rows(base.parts@)[i as int] != rows(self.parts@).subrange(
                    0,
                    base.parts.len() as int,
                )[i as int]);
                return false;
            }
            assert(rows(base.parts@).take(i + 1) == rows(base.parts@).take(i as int).push(
                base.parts[i as int]@,
            ));
            assert(rows(self.parts@).take(i + 1) == rows(self.parts@).take(i as int).push(
                self.parts[i as int]@,
            ));
            i = i + 1;
        }
        assert(rows(base.parts@).take(base.parts.len() as int) == rows(base.parts@));
        assert(rows(self.parts@).take(base.parts.len() as int) == rows(self.parts@).subrange(
            0,
            base.parts.len() as int,
        ));
        true
    }

    /// What leads from `base` to this path; `None` where this path does not
    /// lie at or below `base`.
    pub fn relative_to(&self, base: &FilePath) -> (r: Option<FilePath>)
        ensures
            r is Some == self@.relative_to(base@) is Some,
            r matches Some(p) ==> Some(p@) == self@.relative_to(base@),
    {
        proof {
            use_type_invariant(self);
        }
        if !self.starts_with(base) {
            return None;
        }
        assert(rows(self.parts@).len() == self.parts.len());
        assert(rows(base.parts@).len() == base.parts.len());
        let mut parts: Vec<Vec<char>> = Vec::new();
        extend_rows(&mut parts, &self.parts, base.parts.len(), self.parts.len());
        proof {
            let kept = rows(self.parts@).subrange(
                base.parts.len() as int,
                self.parts.len() as int,
            );
            assert(rows(parts@) == kept);
            assert(kept == rows(self.parts@).skip(base.parts.len() as int));
            assert forall|k: int| 0 <= k < kept.len() implies is_part(#[trigger] kept[k]) by {
                assert(kept[k] == self@.parts[k + base.parts.len()]);
            }
        }
        Some(FilePath { absolute: false, parts })
    }

    /// The same components, taken as a relative path.
    pub fn into_relative(self) -> (r: FilePath)
        ensures
            r@ == (PathModel { absolute: false, parts: self@.parts }),
    {
        proof {
            use_type_invariant(&self);
        }
        FilePath { absolute: false, parts: self.parts }
    }

    /// The index file with extension `ext` in this directory.
    pub(crate) fn index_file(&self, ext: &Vec<char>) -> (r: FilePath)
        requires
            ext@.len() > 0,
            !ext@.contains('/'),
        ensures
            r@ == (PathModel {
                absolute: self@.absolute,
                parts: self@.parts.push(seq!['i', 'n', 'd', 'e', 'x'] + seq!['.'] + ext@),
            }),
    {
        proof {
            use_type_invariant(self);
        }
        let mut name = vec!['i', 'n', 'd', 'e', 'x', '.'];
        assert(name@ =~= seq!['i', 'n', 'd', 'e', 'x'] + seq!['.']);
        append_text(&mut name, ext);
        let mut parts = copy_rows(&self.parts);
        let ghost kept = rows(parts@);
        parts.push(name);
        proof {
            let fresh = seq!['i', 'n', 'd', 'e', 'x'] + seq!['.'] + ext@;
            assert(name@ == fresh);
            assert(rows(parts@) == kept.push(fresh));
            assert(!fresh.contains('/')) by {
                assert forall|j: int| 0 <= j < fresh.len() implies fresh[j] != '/' by {
                    if j >= 6 {
                        assert(ext@.contains(ext@[j - 6]));
                    }
                }
            }
            assert(fresh.len() > 1);
            assert forall|k: int| 0 <= k < rows(parts@).len() implies is_part(
                #[trigger] rows(parts@)[k],
            ) by {
                if k < kept.len() {
                    assert(rows(parts@)[k] == self@.parts[k]);
                }
            }
        }
        FilePath { absolute: self.absolute, parts }
    }

    /// The extension of the file name, if it has one.
    pub fn extension(&self) -> (r: Option<Vec<char>>)
        ensures
            r is Some == self@.extension() is Some,
            r matches Some(e) ==> Some(e@) == self@.extension(),
    {
        if self.parts.len() == 0 {
            return None;
        }
        let name = &self.parts[self.parts.len() - 1];
        assert(rows(self.parts@).last() == name@);
        if is_dot_dot(name) {
            return None;
        }
        proof {
            lemma_last_dot_bounds(name@);
        }
        let dot = find_last_dot(name);
        match dot {
            Some(k) => {
                assert(k < name.len());
                if k > 0 {
                    let from: usize = k + 1;
                    let ext = slice_of(name, from, name.len());
                    assert(ext@ == name@.skip(last_dot(name@) + 1));
                    Some(ext)
                } else {
                    None
                }
            },
            None => None,
        }
    }

    /// The path with the extension of its file name replaced by `ext`, or
    /// added where it has none.
    pub(crate) fn with_extension(&self, ext: &Vec<char>) -> (r: FilePath)
        requires
            ext@.len() > 0,
            !ext@.contains('/'),
        ensures
            r@ == self@.with_extension(ext@),
    {
        proof {
            use_type_invariant(self);
        }
        if self.parts.len() == 0 {
            return self.clone();
        }
        let name = &self.parts[self.parts.len() - 1];
        assert(rows(self.parts@).last() == name@);
        assert(name@ == self@.parts[self.parts.len() - 1]);
        if is_dot_dot(name) {
            return self.clone();
        }
        proof {
            lemma_last_dot_bounds(name@);
        }
        let stem_len = match find_last_dot(name) {
            Some(k) => if k > 0 {
                k
            } else {
                name.len()
            },
            None => name.len(),
        };
        let mut last = slice_of(name, 0, stem_len);
        assert(last@ == stem_of(name@)) by {
            assert(name@.subrange(0, name.len() as int) == name@);
        }
        last.push('.');
        append_text(&mut last, ext);
        let mut parts: Vec<Vec<char>> = Vec::new();
        extend_rows(&mut parts, &self.parts, 0, self.parts.len() - 1);
        let ghost kept = rows(parts@);
        parts.push(last);
        proof {
            let fresh = stem_of(name@) + seq!['.'] + ext@;
            assert(last@ == fresh);
            assert(kept == rows(self.parts@).drop_last());
            assert(rows(parts@) == kept.push(fresh));
            assert(fresh.len() >= 3);
            assert(!fresh.contains('/')) by {
                assert forall|j: int| 0 <= j < fresh.len() implies fresh[j] != '/' by {
                    if j < stem_of(name@).len() {
                        assert(name@.contains(name@[j]));
                    } else if j > stem_of(name@).len() {
                        assert(ext@.contains(ext@[j - stem_of(name@).len() - 1]));
                    }
                }
            }
            assert(fresh != seq!['.']);
            assert forall|k: int| 0 <= k < rows(parts@).len() implies is_part(
                #[trigger] rows(parts@)[k],
            ) by {
                if k < kept.len() {
                    assert(rows(parts@)[k] == self@.parts[k]);
                }
            }
        }
        FilePath { absolute: self.absolute, parts }
    }
}

/// Adds copies of the rows of `t` from `from` up to `to` at the end of `out`.
pub(crate) fn extend_rows(out: &mut Vec<Vec<char>>, t: &Vec<Vec<char>>, from: usize, to: usize)
    requires
        from <= to <= t.len(),
    ensures
        rows(final(out)@) == rows(old(out)@) + rows(t@).subrange(from as int, to as int),
{
    let mut i: usize = from;
    assert(rows(out@) == rows(old(out)@) + rows(t@).subrange(from as int, from as int));
    while i < to
        invariant
            from <= i <= to <= t.len(),
            rows(out@) == rows(old(out)@) + rows(t@).subrange(from as int, i as int),
        decreases to - i,
    {
        let ghost before = rows(out@);
        out.push(copy_text(&t[i]));
        assert(rows(out@) == before.push(t[i as int]@));
        assert(rows(t@).subrange(from as int, i + 1) == rows(t@).subrange(
            from as int,
            i as int,
        ).push(t[i as int]@));
        i = i + 1;
    }
}

pub(crate) fn is_dot_dot(name: &Vec<char>) -> (r: bool)
    ensures
        r == (name@ == seq!['.', '.']),
{
    let r = name.len() == 2 && name[0] == '.' && name[1] == '.';
    proof {
        if r {
            assert(name@ =~= seq!['.', '.']);
        } else if name.len() == 2 {
            assert(seq!['.', '.'][0] == '.' && seq!['.', '.'][1] == '.');
        } else {
            assert(seq!['.', '.'].len() == 2);
        }
    }
    r
}

pub(crate) fn find_last_dot(name: &Vec<char>) -> (r: Option<usize>)
    ensures
        match r {
            Some(k) => k == last_dot(name@),
            None => last_dot(name@) == -1,
        },
{
    let mut i: usize = name.len();
    assert(name@.take(name.len() as int) == name@);
    while i > 0
        invariant
            i <= name.len(),
            last_dot(name@) == last_dot(name@.take(i as int)),
        decreases i,
    {
        assert(name@.take(i as int).last() == name@[i - 1]);
        assert(name@.take(i as int).drop_last() == name@.take(i - 1));
        if name[i - 1] == '.' {
            return Some(i - 1);
        }
        i = i - 1;
    }
    None
}

} // verus!
