//! The per-file diagnostic collection: a mapping from note files to
//! their latest diagnostic sets.  A recomputation cycle replaces a
//! file's whole set atomically, and the replacement reports whether the
//! stored set really changed, so callers can suppress redundant
//! publishes.

use vstd::prelude::*;
use crate::diag::{DiagV, DiagWithLoc, diag_loc_eq, diag_loc_view, diags_view};
use crate::model::{NoteFile, Span};

verus! {

/// One entry per file, in insertion order.
pub struct DiagCollection {
    pub store: Vec<(NoteFile, Vec<DiagWithLoc>)>,
}

/// The index of the entry for `path`, if any.
pub open spec fn find_file_spec(s: Seq<(NoteFile, Vec<DiagWithLoc>)>, path: Seq<char>) -> Option<
    int,
>
    decreases s.len(),
{
    if s.len() == 0 {
        None
    } else if s.first().0@ == path {
        Some(0)
    } else {
        match find_file_spec(s.drop_first(), path) {
            Some(i) => Some(i + 1),
            None => None,
        }
    }
}

/// The diagnostics stored for `path`: the entry's sequence, or empty if
/// none has been computed.
pub open spec fn lookup_spec(s: Seq<(NoteFile, Vec<DiagWithLoc>)>, path: Seq<char>) -> Seq<
    DiagWithLoc,
> {
    match find_file_spec(s, path) {
        Some(i) => s[i].1@,
        None => Seq::empty(),
    }
}

/// The stored diagnostics for `path` as a set of mathematical values.
pub open spec fn stored_set(s: Seq<(NoteFile, Vec<DiagWithLoc>)>, path: Seq<char>) -> Set<
    (DiagV, Span),
> {
    diags_view(lookup_spec(s, path)).to_set()
}

/// A found entry is in range and carries the looked-up path.
proof fn lemma_find_file_found(s: Seq<(NoteFile, Vec<DiagWithLoc>)>, path: Seq<char>)
    ensures
        match find_file_spec(s, path) {
            Some(i) => 0 <= i < s.len() && s[i].0@ == path,
            None => forall|j: int| 0 <= j < s.len() ==> s[j].0@ != path,
        },
    decreases s.len(),
{
    if s.len() != 0 {
        lemma_find_file_found(s.drop_first(), path);
        assert(forall|j: int| 1 <= j < s.len() ==> s[j] == s.drop_first()[j - 1]);
    }
}

/// Lookup depends only on the paths of the entries, and finds the same
/// index in two stores whose entries carry the same paths.
proof fn lemma_find_file_same_paths(
    s1: Seq<(NoteFile, Vec<DiagWithLoc>)>,
    s2: Seq<(NoteFile, Vec<DiagWithLoc>)>,
    path: Seq<char>,
)
    requires
        s1.len() == s2.len(),
        forall|j: int| 0 <= j < s1.len() ==> s1[j].0@ == s2[j].0@,
    ensures
        find_file_spec(s1, path) == find_file_spec(s2, path),
    decreases s1.len(),
{
    if s1.len() != 0 {
        assert(forall|j: int|
            0 <= j < s1.drop_first().len() ==> s1.drop_first()[j].0@ == s2.drop_first()[j].0@);
        lemma_find_file_same_paths(s1.drop_first(), s2.drop_first(), path);
    }
}

/// Appending an entry leaves every earlier lookup alone and resolves a
/// previously missing path to the new entry.
proof fn lemma_find_file_push(
    s: Seq<(NoteFile, Vec<DiagWithLoc>)>,
    x: (NoteFile, Vec<DiagWithLoc>),
    path: Seq<char>,
)
    ensures
        find_file_spec(s.push(x), path) == match find_file_spec(s, path) {
            Some(i) => Some(i),
            None => if x.0@ == path {
                Some(s.len() as int)
            } else {
                None
            },
        },
    decreases s.len(),
{
    if s.len() == 0 {
        assert(s.push(x).first() == x);
        assert(s.push(x).drop_first() =~= Seq::<(NoteFile, Vec<DiagWithLoc>)>::empty());
        assert(find_file_spec(Seq::<(NoteFile, Vec<DiagWithLoc>)>::empty(), path) is None);
        if x.0@ == path {
            assert(find_file_spec(s.push(x), path) == Some(0int));
        } else {
            assert(find_file_spec(s.push(x), path) is None);
        }
    } else {
        assert(s.push(x).len() == s.len() + 1);
        assert(s.push(x).first() == s.first());
        assert(s.push(x).drop_first() =~= s.drop_first().push(x));
        lemma_find_file_push(s.drop_first(), x, path);
        assert(s.drop_first().len() == s.len() - 1);
        if s.first().0@ == path {
            assert(find_file_spec(s.push(x), path) == Some(0int));
            assert(find_file_spec(s, path) == Some(0int));
        }
    }
}

/// True exactly when the two sequences hold the same set of located
/// diagnostics, by structural equality of content and span.
pub fn diag_set_eq(a: &Vec<DiagWithLoc>, b: &Vec<DiagWithLoc>) -> (r: bool)
    ensures
        r == (diags_view(a@).to_set() == diags_view(b@).to_set()),
{
    let fwd = diags_contained(a, b);
    let bwd = diags_contained(b, a);
    proof {
        if fwd && bwd {
            assert(diags_view(a@).to_set() =~= diags_view(b@).to_set());
        } else if !fwd {
            let k = choose|k: int|
                0 <= k < diags_view(a@).len() && !diags_view(b@).to_set().contains(
                    diags_view(a@)[k],
                );
            assert(diags_view(a@).to_set().contains(diags_view(a@)[k]));
        } else {
            let k = choose|k: int|
                0 <= k < diags_view(b@).len() && !diags_view(a@).to_set().contains(
                    diags_view(b@)[k],
                );
            assert(diags_view(b@).to_set().contains(diags_view(b@)[k]));
        }
    }
    fwd && bwd
}

/// True exactly when every element of `a` occurs somewhere in `b`.
fn diags_contained(a: &Vec<DiagWithLoc>, b: &Vec<DiagWithLoc>) -> (r: bool)
    ensures
        r == forall|k: int|
            0 <= k < diags_view(a@).len() ==> diags_view(b@).to_set().contains(diags_view(a@)[k]),
{
    let n = a.len();
    for i in 0..n
        invariant
            n == a@.len(),
            forall|k: int| 0 <= k < i ==> diags_view(b@).to_set().contains(diags_view(a@)[k]),
    {
        let hit = diags_has(b, &a[i]);
        proof {
            assert(diags_view(a@)[i as int] == diag_loc_view(a@[i as int]));
        }
        if !hit {
            return false;
        }
    }
    true
}

/// True exactly when some element of `b` equals `d`.
fn diags_has(b: &Vec<DiagWithLoc>, d: &DiagWithLoc) -> (r: bool)
    ensures
        r == diags_view(b@).to_set().contains(diag_loc_view(*d)),
{
    let n = b.len();
    for i in 0..n
        invariant
            n == b@.len(),
            forall|k: int| 0 <= k < i ==> diags_view(b@)[k] != diag_loc_view(*d),
    {
        if diag_loc_eq(&b[i], d) {
            proof {
                assert(diags_view(b@)[i as int] == diag_loc_view(*d));
            }
            return true;
        }
    }
    proof {
        if diags_view(b@).to_set().contains(diag_loc_view(*d)) {
            let k = choose|k: int|
                0 <= k < diags_view(b@).len() && diags_view(b@)[k] == diag_loc_view(*d);
            assert(diags_view(b@)[k] == diag_loc_view(*d));
        }
    }
    false
}

impl DiagCollection {
    /// Entries key distinct paths.
    pub open spec fn wf(&self) -> bool {
        forall|i: int, j: int|
            0 <= i < j < self.store@.len() ==> self.store@[i].0@ != self.store@[j].0@
    }

    /// An empty collection: no file has a stored set yet.
    pub fn new() -> (r: DiagCollection)
        ensures
            r.wf(),
            r.store@.len() == 0,
    {
        DiagCollection { store: Vec::new() }
    }

    /// The entry index for `file`, if one exists.
    fn find_entry(&self, file: &NoteFile) -> (r: Option<usize>)
        ensures
            match r {
                Some(i) => 0 <= i < self.store@.len() && find_file_spec(self.store@, file@)
                    == Some(i as int),
                None => find_file_spec(self.store@, file@) is None,
            },
    {
        let n = self.store.len();
        proof {
            assert(self.store@.skip(0) =~= self.store@);
        }
        for i in 0..n
            invariant
                n == self.store@.len(),
                find_file_spec(self.store@, file@) == match find_file_spec(
                    self.store@.skip(i as int),
                    file@,
                ) {
                    Some(k) => Some(k + i),
                    None => None,
                },
        {
            let ghost pre = self.store@.skip(i as int);
            proof {
                assert(pre.first() == self.store@[i as int]);
                assert(pre.drop_first() =~= self.store@.skip(i + 1));
            }
            if self.store[i].0.path == file.path {
                return Some(i);
            }
        }
        proof {
            assert(self.store@.skip(n as int) =~= Seq::<(NoteFile, Vec<DiagWithLoc>)>::empty());
        }
        None
    }

    /// The current set stored for `file`: a copy of the entry's
    /// diagnostics, or empty if none has been computed.
    pub fn get(&self, file: &NoteFile) -> (r: Vec<DiagWithLoc>)
        ensures
            r@ == lookup_spec(self.store@, file@),
    {
        match self.find_entry(file) {
            Some(i) => clone_diags(&self.store[i].1),
            None => Vec::new(),
        }
    }

    /// Atomically overwrite the stored set for `file` with `diags`.
    /// Returns whether the stored set of mathematical values really
    /// changed; an equal set — in any order — reports no change.
    pub fn replace(&mut self, file: NoteFile, diags: Vec<DiagWithLoc>) -> (changed: bool)
        requires
            old(self).wf(),
        ensures
            final(self).wf(),
            lookup_spec(final(self).store@, file@) == diags@,
            forall|p: Seq<char>|
                p != file@ ==> lookup_spec(final(self).store@, p) == lookup_spec(
                    old(self).store@,
                    p,
                ),
            changed == (stored_set(final(self).store@, file@) != stored_set(
                old(self).store@,
                file@,
            )),
    {
        let ghost s0 = self.store@;
        match self.find_entry(&file) {
            Some(i) => {
                let changed = !diag_set_eq(&self.store[i].1, &diags);
                self.store.remove(i);
                self.store.insert(i, (file, diags));
                proof {
                    let s1 = self.store@;
                    assert(s1 =~= s0.update(i as int, s1[i as int]));
                    lemma_find_file_found(s0, file@);
                    assert(forall|j: int| 0 <= j < s0.len() ==> s0[j].0@ == s1[j].0@);
                    assert forall|p: Seq<char>| true implies find_file_spec(s1, p)
                        == find_file_spec(s0, p) by {
                        lemma_find_file_same_paths(s1, s0, p);
                    }
                    assert forall|p: Seq<char>| p != file@ implies lookup_spec(s1, p)
                        == lookup_spec(s0, p) by {
                        lemma_find_file_found(s0, p);
                    }
                }
                changed
            },
            None => {
                let changed = diags.len() > 0;
                proof {
                    lemma_find_file_found(s0, file@);
                    assert(diags_view(Seq::<DiagWithLoc>::empty()).to_set()
                        =~= Set::<(DiagV, Span)>::empty());
                    if diags@.len() > 0 {
                        assert(diags_view(diags@).to_set().contains(diags_view(diags@)[0]));
                    } else {
                        assert(diags_view(diags@).to_set() =~= Set::<(DiagV, Span)>::empty());
                    }
                }
                self.store.push((file, diags));
                proof {
                    let s1 = self.store@;
                    assert forall|p: Seq<char>| true implies find_file_spec(s1, p) == match
                        find_file_spec(s0, p) {
                        Some(k) => Some(k),
                        None => if s1[s0.len() as int].0@ == p {
                            Some(s0.len() as int)
                        } else {
                            None
                        },
                    } by {
                        lemma_find_file_push(s0, s1[s0.len() as int], p);
                        assert(s1 =~= s0.push(s1[s0.len() as int]));
                    }
                    assert forall|p: Seq<char>| p != file@ implies lookup_spec(s1, p)
                        == lookup_spec(s0, p) by {
                        lemma_find_file_found(s0, p);
                    }
                    lemma_find_file_found(s1, file@);
                }
                changed
            },
        }
    }
}

impl Default for DiagCollection {
    /// An empty collection is the default one.
    fn default() -> (r: DiagCollection)
        ensures
            r.wf(),
            r.store@.len() == 0,
    {
        DiagCollection::new()
    }
}

/// A copy of a diagnostic sequence, element for element.
fn clone_diags(v: &Vec<DiagWithLoc>) -> (r: Vec<DiagWithLoc>)
    ensures
        r@ == v@,
{
    let mut out: Vec<DiagWithLoc> = Vec::new();
    let n = v.len();
    for i in 0..n
        invariant
            n == v@.len(),
            out@ == v@.take(i as int),
    {
        out.push((v[i].0.clone(), v[i].1));
        proof {
            assert(out@ =~= v@.take(i + 1));
        }
    }
    proof {
        assert(v@.take(n as int) =~= v@);
    }
    out
}

} // verus!
