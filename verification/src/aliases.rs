//! The alias table: short tokens that stand for directories in import
//! strings, such as `@` for the root of the repository.

use crate::path::{path_of, FilePath, PathModel};
use crate::text::{chars_of, find_char, find_from, same_text, slice_of};
use vstd::prelude::*;

verus! {

/// The token that stands for the root of the repository.
pub open spec fn root_alias() -> Seq<char> {
    seq!['@']
}

/// The directory of the first entry for `token` at or after index `i`.
spec fn lookup_from(
    entries: Seq<(Vec<char>, FilePath)>,
    token: Seq<char>,
    i: int,
) -> Option<PathModel>
    decreases entries.len() - i,
{
    if i < 0 || i >= entries.len() {
        None
    } else if entries[i].0@ == token {
        Some(entries[i].1@)
    } else {
        lookup_from(entries, token, i + 1)
    }
}

/// Where an import string leads by the alias rule. The string is cut at its
/// first `/`: if what stands before the cut is an alias, the rest continues
/// the alias's directory. Failing that, a string that starts with `.`
/// continues the directory of the importing file. Any other string is left
/// to the rules of the language.
pub open spec fn alias_target(
    aliases: Map<Seq<char>, PathModel>,
    import: Seq<char>,
    file_dir: PathModel,
) -> Option<PathModel> {
    let cut = find_from(import, '/', 0);
    if cut < import.len() && aliases.dom().contains(import.take(cut)) {
        Some(aliases[import.take(cut)].joined(path_of(import.skip(cut + 1))))
    } else if import.len() > 0 && import[0] == '.' {
        Some(file_dir.joined(path_of(import)))
    } else {
        None
    }
}

/// A table from alias tokens to directories. It always holds the root alias.
#[derive(Debug)]
pub struct PathAliases {
    entries: Vec<(Vec<char>, FilePath)>,
}

impl PathAliases {
    /// The root alias is in the table.
    #[verifier::type_invariant]
    pub open spec fn well_formed(&self) -> bool {
        self@.dom().contains(root_alias())
    }

    /// The table as a map from token to directory.
    pub closed spec fn view(&self) -> Map<Seq<char>, PathModel> {
        Map::new(
            |t: Seq<char>| lookup_from(self.entries@, t, 0) is Some,
            |t: Seq<char>| lookup_from(self.entries@, t, 0)->0,
        )
    }

    /// The table that maps the root alias `@` to the root of the repository
    /// and holds nothing else.
    pub fn new(git_root: &FilePath) -> (r: PathAliases)
        ensures
            r@ == Map::<Seq<char>, PathModel>::empty().insert(root_alias(), git_root@),
    {
        let token = vec!['@'];
        assert(token@ =~= root_alias());
        let mut entries: Vec<(Vec<char>, FilePath)> = Vec::new();
        entries.push((token, git_root.clone()));
        let ghost es = entries@;
        assert(es.len() == 1 && es[0].0@ == root_alias() && es[0].1@ == git_root@);
        assert forall|t: Seq<char>| lookup_from(es, t, 0) == (if t == root_alias() {
            Some(git_root@)
        } else {
            None::<PathModel>
        }) by {
            assert(lookup_from(es, t, 1) is None);
        }
        let r = PathAliases { entries };
        assert(r@ =~= Map::<Seq<char>, PathModel>::empty().insert(root_alias(), git_root@));
        r
    }

    /// The table with `token` mapped to `dir`, in place of what `token`
    /// stood for before. The root alias is not for the taking: asked to map
    /// it anew, the table stays as it is.
    pub fn with_alias(self, token: &str, dir: &FilePath) -> (r: PathAliases)
        ensures
            r@ == if token@ == root_alias() {
                self@
            } else {
                self@.insert(token@, dir@)
            },
    {
        proof {
            use_type_invariant(&self);
        }
        let name = chars_of(token);
        if name.len() == 1 && name[0] == '@' {
            assert(name@ =~= root_alias());
            return self;
        }
        assert(name@ != root_alias()) by {
            if name@.len() == 1 {
                assert(name@[0] != root_alias()[0]);
            }
        }
        let ghost old_entries = self.entries@;
        let mut entries: Vec<(Vec<char>, FilePath)> = Vec::new();
        entries.push((name, dir.clone()));
        let mut rest = self.entries;
        entries.append(&mut rest);
        let ghost es = entries@;
        proof {
            assert(es.len() == old_entries.len() + 1);
            assert(es[0].0@ == token@ && es[0].1@ == dir@);
            assert forall|k: int| 0 <= k < old_entries.len() implies es[k + 1] == old_entries[k] by {}
            assert forall|t: Seq<char>| #[trigger]
                lookup_from(es, t, 0) == (if t == token@ {
                    Some(dir@)
                } else {
                    lookup_from(old_entries, t, 0)
                }) by {
                lemma_lookup_shift(es, old_entries, t, 0);
            }
        }
        let r = PathAliases { entries };
        assert(r@ =~= self@.insert(token@, dir@));
        r
    }

    /// The directory that `token` stands for, if it is an alias.
    pub fn get(&self, token: &Vec<char>) -> (r: Option<FilePath>)
        ensures
            r is Some == self@.dom().contains(token@),
            r matches Some(p) ==> p@ == self@[token@],
    {
        let mut i: usize = 0;
        while i < self.entries.len()
            invariant
                i <= self.entries.len(),
                lookup_from(self.entries@, token@, 0) == lookup_from(
                    self.entries@,
                    token@,
                    i as int,
                ),
            decreases self.entries.len() - i,
        {
            if same_text(&self.entries[i].0, token) {
                return Some(self.entries[i].1.clone());
            }
            i = i + 1;
        }
        None
    }

    /// Where an import string leads by the alias rule, if the rule applies.
    pub fn resolve_path(&self, import_path: &str, file_dir: &FilePath) -> (r: Option<FilePath>)
        ensures
            r is Some == alias_target(self@, import_path@, file_dir@) is Some,
            r matches Some(p) ==> Some(p@) == alias_target(self@, import_path@, file_dir@),
    {
        let import = chars_of(import_path);
        self.resolve_chars(&import, file_dir)
    }

    /// `resolve_path` on the characters of the import string.
    pub fn resolve_chars(&self, import: &Vec<char>, file_dir: &FilePath) -> (r: Option<FilePath>)
        ensures
            r is Some == alias_target(self@, import@, file_dir@) is Some,
            r matches Some(p) ==> Some(p@) == alias_target(self@, import@, file_dir@),
    {
        let cut = find_char(import, '/', 0);
        if cut < import.len() {
            let token = slice_of(import, 0, cut);
            assert(token@ == import@.take(cut as int));
            match self.get(&token) {
                Some(dir) => {
                    let rest = slice_of(import, cut + 1, import.len());
                    assert(rest@ == import@.skip(cut + 1));
                    let tail = FilePath::from_chars(&rest);
                    return Some(dir.join(&tail));
                },
                None => {},
            }
        }
        if import.len() > 0 && import[0] == '.' {
            let tail = FilePath::from_chars(import);
            Some(file_dir.join(&tail))
        } else {
            None
        }
    }
}

/// Looking a token up in a list that has one more entry in front is looking
/// it up in the list itself, one index further.
proof fn lemma_lookup_shift(
    longer: Seq<(Vec<char>, FilePath)>,
    shorter: Seq<(Vec<char>, FilePath)>,
    token: Seq<char>,
    i: int,
)
    requires
        0 <= i <= shorter.len(),
        longer.len() == shorter.len() + 1,
        forall|k: int| 0 <= k < shorter.len() ==> longer[k + 1] == shorter[k],
    ensures
        lookup_from(longer, token, i + 1) == lookup_from(shorter, token, i),
    decreases shorter.len() - i,
{
    if i < shorter.len() {
        assert(longer[i + 1] == shorter[i]);
        if shorter[i].0@ != token {
            lemma_lookup_shift(longer, shorter, token, i + 1);
        }
    }
}

} // verus!
