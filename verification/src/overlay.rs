//! The in-memory file overlay: editor-held content that shadows the disk.

use vstd::prelude::*;

use crate::verb::str_eq;

verus! {

/// A file's path and its text.
#[derive(Debug)]
pub struct Doc {
    /// The file's path.
    pub path: String,
    /// The file's text.
    pub content: String,
}

impl Clone for Doc {
    fn clone(&self) -> (r: Self)
        ensures
            r == *self,
    {
        Doc { path: self.path.clone(), content: self.content.clone() }
    }
}

/// The overlay entry holding `path`, if any: its content.
pub open spec fn lookup(entries: Seq<Doc>, path: Seq<char>) -> Option<Seq<char>>
    decreases entries.len(),
{
    if entries.len() == 0 {
        None
    } else if entries.last().path@ == path {
        Some(entries.last().content@)
    } else {
        lookup(entries.drop_last(), path)
    }
}

/// `entries` without any entry holding `path`.
pub open spec fn without_path(entries: Seq<Doc>, path: Seq<char>) -> Seq<Doc>
    decreases entries.len(),
{
    if entries.len() == 0 {
        seq![]
    } else {
        let rest = without_path(entries.drop_last(), path);
        if entries.last().path@ == path {
            rest
        } else {
            rest.push(entries.last())
        }
    }
}

/// Dropping one path leaves every other lookup unchanged.
pub proof fn lemma_without_path_lookup(entries: Seq<Doc>, path: Seq<char>, q: Seq<char>)
    requires
        q != path,
    ensures
        lookup(without_path(entries, path), q) == lookup(entries, q),
    decreases entries.len(),
{
    if entries.len() > 0 {
        lemma_without_path_lookup(entries.drop_last(), path, q);
        let rest = without_path(entries.drop_last(), path);
        if entries.last().path@ == path {
        } else {
            assert(rest.push(entries.last()).drop_last() =~= rest);
        }
    }
}

/// A mapping from file path to in-memory content, shadowing the disk.
/// Entries are added and updated by open/change and removed by close; they
/// never expire on their own.
#[derive(Debug)]
pub struct FileOverlay {
    /// The entries; at most one per path.
    pub entries: Vec<Doc>,
}

impl FileOverlay {
    /// At most one entry per path.
    pub open spec fn wf(&self) -> bool {
        forall|j: int, k: int|
            0 <= j < k < self.entries@.len() ==> (#[trigger] self.entries@[j]).path@
                != (#[trigger] self.entries@[k]).path@
    }

    /// The overlay content for `path`, if any.
    pub open spec fn spec_get(&self, path: Seq<char>) -> Option<Seq<char>> {
        lookup(self.entries@, path)
    }

    /// An empty overlay.
    pub fn new() -> (r: FileOverlay)
        ensures
            r.entries@.len() == 0,
            r.wf(),
    {
        FileOverlay { entries: Vec::new() }
    }

    /// Add or update the entry for `path`: afterwards the overlay holds
    /// `content` for it, and every other path is unaffected.
    pub fn insert(&mut self, path: String, content: String)
        requires
            old(self).wf(),
        ensures
            final(self).wf(),
            final(self).spec_get(path@) == Some(content@),
            forall|q: Seq<char>|
                q != path@ ==> final(self).spec_get(q) == old(self).spec_get(q),
    {
        let ghost olds = self.entries@;
        let n = self.entries.len();
        let mut out: Vec<Doc> = Vec::new();
        let mut i: usize = 0;
        while i < n
            invariant
                i <= n == self.entries@.len(),
                olds == self.entries@,
                out@ == without_path(olds.take(i as int), path@),
            decreases n - i,
        {
            proof {
                assert(olds.take(i + 1).drop_last() =~= olds.take(i as int));
                assert(olds.take(i + 1).last() == olds[i as int]);
            }
            if !str_eq(self.entries[i].path.as_str(), path.as_str()) {
                out.push(self.entries[i].clone());
                proof {
                    assert(out@.drop_last() =~= without_path(olds.take(i as int), path@));
                }
            }
            i = i + 1;
        }
        proof {
            assert(olds.take(n as int) =~= olds);
        }
        let ghost filtered = out@;
        out.push(Doc { path, content });
        self.entries = out;
        proof {
            assert(self.entries@.drop_last() =~= filtered);
            assert(self.entries@.last().path@ == path@);
            lemma_without_path_wf(olds, path@);
            lemma_without_path_no_path(olds, path@);
            assert forall|j: int, k: int|
                0 <= j < k < self.entries@.len() implies (#[trigger] self.entries@[j]).path@
                != (#[trigger] self.entries@[k]).path@ by {
                assert(self.entries@[j] == filtered[j]);
                if k < self.entries@.len() - 1 {
                    assert(self.entries@[k] == filtered[k]);
                } else {
                    assert(self.entries@[k].path@ == path@);
                    assert(filtered[j].path@ != path@);
                }
            }
            assert forall|q: Seq<char>| q != path@ implies final(self).spec_get(q) == lookup(
                olds,
                q,
            ) by {
                lemma_without_path_lookup(olds, path@, q);
            }
        }
    }

    /// Remove the entry for `path`, if any; every other path is
    /// unaffected.
    pub fn remove(&mut self, path: &str)
        requires
            old(self).wf(),
        ensures
            final(self).wf(),
            final(self).spec_get(path@) is None,
            forall|q: Seq<char>|
                q != path@ ==> final(self).spec_get(q) == old(self).spec_get(q),
    {
        let ghost olds = self.entries@;
        let n = self.entries.len();
        let mut out: Vec<Doc> = Vec::new();
        let mut i: usize = 0;
        while i < n
            invariant
                i <= n == self.entries@.len(),
                olds == self.entries@,
                out@ == without_path(olds.take(i as int), path@),
            decreases n - i,
        {
            proof {
                assert(olds.take(i + 1).drop_last() =~= olds.take(i as int));
                assert(olds.take(i + 1).last() == olds[i as int]);
            }
            if !str_eq(self.entries[i].path.as_str(), path) {
                out.push(self.entries[i].clone());
                proof {
                    assert(out@.drop_last() =~= without_path(olds.take(i as int), path@));
                }
            }
            i = i + 1;
        }
        proof {
            assert(olds.take(n as int) =~= olds);
        }
        self.entries = out;
        proof {
            lemma_without_path_wf(olds, path@);
            lemma_without_path_gone(olds, path@);
            assert forall|q: Seq<char>| q != path@ implies final(self).spec_get(q) == lookup(
                olds,
                q,
            ) by {
                lemma_without_path_lookup(olds, path@, q);
            }
        }
    }

    /// The overlay content for `path`, if any.
    pub fn get(&self, path: &str) -> (r: Option<String>)
        ensures
            match r {
                Some(c) => self.spec_get(path@) == Some(c@),
                None => self.spec_get(path@) is None,
            },
    {
        let n = self.entries.len();
        proof {
            assert(self.entries@.take(n as int) =~= self.entries@);
        }
        let mut i = n;
        while i > 0
            invariant
                i <= n == self.entries@.len(),
                lookup(self.entries@, path@) == lookup(self.entries@.take(i as int), path@),
            decreases i,
    {
            proof {
                assert(self.entries@.take(i as int).drop_last() =~= self.entries@.take(i - 1));
                assert(self.entries@.take(i as int).last() == self.entries@[i - 1]);
            }
            if str_eq(self.entries[i - 1].path.as_str(), path) {
                return Some(self.entries[i - 1].content.clone());
            }
            i = i - 1;
        }
        proof {
            assert(self.entries@.take(0) =~= Seq::<Doc>::empty());
        }
        None
    }

    /// A copy of the overlay's entries.
    pub fn snapshot_entries(&self) -> (r: Vec<Doc>)
        ensures
            r@.len() == self.entries@.len(),
            forall|t: int|
                0 <= t < self.entries@.len() ==> (#[trigger] r@[t]).path@
                    == self.entries@[t].path@ && r@[t].content@ == self.entries@[t].content@,
    {
        let n = self.entries.len();
        let mut r: Vec<Doc> = Vec::new();
        let mut i: usize = 0;
        while i < n
            invariant
                i <= n == self.entries@.len(),
                r@.len() == i,
                forall|t: int|
                    0 <= t < i ==> (#[trigger] r@[t]).path@ == self.entries@[t].path@
                        && r@[t].content@ == self.entries@[t].content@,
            decreases n - i,
        {
            r.push(self.entries[i].clone());
            i = i + 1;
        }
        r
    }
}

/// Dropping a path preserves entry uniqueness.
proof fn lemma_without_path_wf(entries: Seq<Doc>, path: Seq<char>)
    requires
        forall|j: int, k: int|
            0 <= j < k < entries.len() ==> (#[trigger] entries[j]).path@
                != (#[trigger] entries[k]).path@,
    ensures
        ({
            let w = without_path(entries, path);
            forall|j: int, k: int|
                0 <= j < k < w.len() ==> (#[trigger] w[j]).path@ != (#[trigger] w[k]).path@
        }),
    decreases entries.len(),
{
    if entries.len() > 0 {
        lemma_without_path_wf(entries.drop_last(), path);
        let rest = without_path(entries.drop_last(), path);
        if entries.last().path@ != path {
            lemma_without_path_sub(entries.drop_last(), path);
            assert forall|j: int, k: int|
                0 <= j < k < rest.push(entries.last()).len() implies (#[trigger] rest.push(
                entries.last(),
            )[j]).path@ != (#[trigger] rest.push(entries.last())[k]).path@ by {
                if k < rest.len() {
                } else {
                    assert(rest.push(entries.last())[k] == entries.last());
                    assert(rest.contains(rest[j]));
                    let t = choose|t: int|
                        0 <= t < entries.drop_last().len() && entries.drop_last()[t] == rest[j];
                    assert(entries[t] == rest[j]);
                    assert(entries[t].path@ != entries.last().path@);
                }
            }
        }
    }
}

/// Every surviving entry was present before.
proof fn lemma_without_path_sub(entries: Seq<Doc>, path: Seq<char>)
    ensures
        forall|t: int|
            0 <= t < without_path(entries, path).len() ==> entries.contains(
                #[trigger] without_path(entries, path)[t],
            ),
    decreases entries.len(),
{
    if entries.len() > 0 {
        lemma_without_path_sub(entries.drop_last(), path);
        let rest = without_path(entries.drop_last(), path);
        assert forall|t: int|
            0 <= t < without_path(entries, path).len() implies entries.contains(
            without_path(entries, path)[t],
        ) by {
            if t < rest.len() {
                assert(entries.drop_last().contains(rest[t]));
                let u = choose|u: int|
                    0 <= u < entries.drop_last().len() && entries.drop_last()[u] == rest[t];
                assert(entries[u] == rest[t]);
            } else {
                assert(without_path(entries, path)[t] == entries.last());
                assert(entries[entries.len() - 1] == entries.last());
            }
        }
    }
}

/// No surviving entry carries the dropped path.
proof fn lemma_without_path_no_path(entries: Seq<Doc>, path: Seq<char>)
    ensures
        forall|t: int|
            0 <= t < without_path(entries, path).len() ==> (#[trigger] without_path(
                entries,
                path,
            )[t]).path@ != path,
    decreases entries.len(),
{
    if entries.len() > 0 {
        lemma_without_path_no_path(entries.drop_last(), path);
        let rest = without_path(entries.drop_last(), path);
        assert forall|t: int|
            0 <= t < without_path(entries, path).len() implies (#[trigger] without_path(
            entries,
            path,
        )[t]).path@ != path by {
            if entries.last().path@ != path {
                if t < rest.len() {
                    assert(without_path(entries, path)[t] == rest[t]);
                } else {
                    assert(without_path(entries, path)[t] == entries.last());
                }
            } else {
                assert(without_path(entries, path)[t] == rest[t]);
            }
        }
    }
}

/// The path no longer resolves after removal.
proof fn lemma_without_path_gone(entries: Seq<Doc>, path: Seq<char>)
    ensures
        lookup(without_path(entries, path), path) is None,
    decreases entries.len(),
{
    if entries.len() > 0 {
        lemma_without_path_gone(entries.drop_last(), path);
        let rest = without_path(entries.drop_last(), path);
        if entries.last().path@ != path {
            assert(rest.push(entries.last()).drop_last() =~= rest);
        }
    }
}

/// The files to scan, with the overlay applied: an overlay entry for a
/// path takes precedence over the on-disk content for that path.
pub fn apply_overlay(files: &Vec<Doc>, overlay: &FileOverlay) -> (r: Vec<Doc>)
    ensures
        r@.len() == files@.len(),
        forall|t: int|
            0 <= t < files@.len() ==> (#[trigger] r@[t]).path@ == files@[t].path@
                && r@[t].content@ == (match overlay.spec_get(files@[t].path@) {
                Some(c) => c,
                None => files@[t].content@,
            }),
{
    let n = files.len();
    let mut r: Vec<Doc> = Vec::new();
    let mut i: usize = 0;
    while i < n
        invariant
            i <= n == files@.len(),
            r@.len() == i,
            forall|t: int|
                0 <= t < i ==> (#[trigger] r@[t]).path@ == files@[t].path@ && r@[t].content@
                    == (match overlay.spec_get(files@[t].path@) {
                    Some(c) => c,
                    None => files@[t].content@,
                }),
        decreases n - i,
    {
        match overlay.get(files[i].path.as_str()) {
            Some(c) => {
                r.push(Doc { path: files[i].path.clone(), content: c });
            },
            None => {
                r.push(files[i].clone());
            },
        }
        i = i + 1;
    }
    r
}

/// Overlay precedence: scanning a file whose path has an overlay entry
/// reads the overlay's content, never the disk's.
pub proof fn lemma_overlay_precedence(
    files: Seq<Doc>,
    overlaid: Seq<Doc>,
    overlay: FileOverlay,
    t: int,
    b: Seq<char>,
)
    requires
        overlaid.len() == files.len(),
        forall|u: int|
            0 <= u < files.len() ==> (#[trigger] overlaid[u]).path@ == files[u].path@
                && overlaid[u].content@ == (match overlay.spec_get(files[u].path@) {
                Some(c) => c,
                None => files[u].content@,
            }),
        0 <= t < files.len(),
        overlay.spec_get(files[t].path@) == Some(b),
    ensures
        overlaid[t].content@ == b,
{
}

} // verus!
