//! What the file system holds at the paths that were looked at. The library
//! decides from such a record; it never touches the file system itself.

use crate::path::{FilePath, PathModel};
use vstd::prelude::*;

verus! {

/// What stands at a path.
#[derive(Clone, Copy, Debug, PartialEq, Eq)]
pub enum EntryKind {
    /// Nothing.
    Missing,
    /// Something that is no directory.
    File,
    /// A directory.
    Directory,
}

/// The kind recorded by the first entry for `path` at or after index `i`;
/// `Missing` if there is none.
spec fn kind_from(entries: Seq<(FilePath, EntryKind)>, path: PathModel, i: int) -> EntryKind
    decreases entries.len() - i,
{
    if i < 0 || i >= entries.len() {
        EntryKind::Missing
    } else if entries[i].0@ == path {
        entries[i].1
    } else {
        kind_from(entries, path, i + 1)
    }
}

/// A record of what stands at some paths. A path that was never recorded
/// counts as missing.
#[derive(Debug)]
pub struct Snapshot {
    entries: Vec<(FilePath, EntryKind)>,
}

impl Snapshot {
    /// What the record says stands at `path`.
    pub closed spec fn kind_of(&self, path: PathModel) -> EntryKind {
        kind_from(self.entries@, path, 0)
    }

    /// Whether the record says that something stands at `path`.
    pub open spec fn holds(&self, path: PathModel) -> bool {
        self.kind_of(path) != EntryKind::Missing
    }

    /// The record that holds nothing.
    pub fn new() -> (r: Snapshot)
        ensures
            forall|p: PathModel| r.kind_of(p) == EntryKind::Missing,
    {
        Snapshot { entries: Vec::new() }
    }

    /// Records what stands at `path`, in place of what was recorded for it
    /// before.
    pub fn record(&mut self, path: &FilePath, kind: EntryKind)
        ensures
            forall|p: PathModel|
                #![trigger final(self).kind_of(p)]
                final(self).kind_of(p) == (if p == path@ {
                    kind
                } else {
                    old(self).kind_of(p)
                }),
    {
        let ghost before = self.entries@;
        self.entries.insert(0, (path.clone(), kind));
        let ghost after = self.entries@;
        proof {
            assert(after.len() == before.len() + 1);
            assert(after[0].0@ == path@ && after[0].1 == kind);
            assert forall|k: int| 0 <= k < before.len() implies after[k + 1] == before[k] by {}
            assert forall|p: PathModel| kind_from(after, p, 0) == (if p == path@ {
                kind
            } else {
                kind_from(before, p, 0)
            }) by {
                lemma_kind_shift(after, before, p, 0);
            }
        }
    }

    /// What the record says stands at `path`.
    pub fn kind(&self, path: &FilePath) -> (r: EntryKind)
        ensures
            r == self.kind_of(path@),
    {
        let mut i: usize = 0;
        while i < self.entries.len()
            invariant
                i <= self.entries.len(),
                kind_from(self.entries@, path@, 0) == kind_from(self.entries@, path@, i as int),
            decreases self.entries.len() - i,
        {
            if self.entries[i].0.same(path) {
                return self.entries[i].1;
            }
            i = i + 1;
        }
        EntryKind::Missing
    }

    /// Whether the record says that something stands at `path`.
    pub fn has(&self, path: &FilePath) -> (r: bool)
        ensures
            r == self.holds(path@),
    {
        match self.kind(path) {
            EntryKind::Missing => false,
            _ => true,
        }
    }
}

/// Two records say the same of every path of a list.
pub open spec fn agree_on(a: Snapshot, b: Snapshot, at: Seq<PathModel>) -> bool {
    forall|i: int| 0 <= i < at.len() ==> a.kind_of(#[trigger] at[i]) == b.kind_of(at[i])
}

proof fn lemma_kind_shift(
    longer: Seq<(FilePath, EntryKind)>,
    shorter: Seq<(FilePath, EntryKind)>,
    path: PathModel,
    i: int,
)
    requires
        0 <= i <= shorter.len(),
        longer.len() == shorter.len() + 1,
        forall|k: int| 0 <= k < shorter.len() ==> longer[k + 1] == shorter[k],
    ensures
        kind_from(longer, path, i + 1) == kind_from(shorter, path, i),
    decreases shorter.len() - i,
{
    if i < shorter.len() {
        assert(longer[i + 1] == shorter[i]);
        if shorter[i].0@ != path {
            lemma_kind_shift(longer, shorter, path, i + 1);
        }
    }
}

} // verus!
