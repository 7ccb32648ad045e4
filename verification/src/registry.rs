use vstd::prelude::*;

use crate::scanner::CruftDirectory;

verus! {

/// No two entries share a path: the path is each entry's identity.
pub open spec fn paths_unique(s: Seq<CruftDirectory>) -> bool {
    forall|i: int, j: int| 0 <= i < j < s.len() ==> s[i].path@ != s[j].path@
}

/// Some entry of `s` has path `p`.
pub open spec fn has_path(s: Seq<CruftDirectory>, p: Seq<char>) -> bool {
    exists|k: int| 0 <= k < s.len() && s[k].path@ == p
}

/// The entries whose path is not `p`.
pub open spec fn not_path(p: Seq<char>) -> spec_fn(CruftDirectory) -> bool {
    |e: CruftDirectory| e.path@ != p
}

/// The store of discovered entries plus scan-progress counters and the
/// completion flag. The walker appends, the session snapshots, the
/// deletion step removes; the raw list is never handed out, so the
/// uniqueness discipline cannot be bypassed.
pub struct Registry {
    entries: Vec<CruftDirectory>,
    scanned: u64,
    complete: bool,
}

impl Registry {
    /// The entries currently stored, in insertion order.
    pub closed spec fn spec_entries(&self) -> Seq<CruftDirectory> {
        self.entries@
    }

    /// How many filesystem entries the scan has visited so far.
    pub closed spec fn spec_scanned(&self) -> u64 {
        self.scanned
    }

    /// Whether the scan has finished.
    pub closed spec fn spec_complete(&self) -> bool {
        self.complete
    }

    /// The registry's invariant: entry paths are pairwise distinct.
    pub open spec fn wf(&self) -> bool {
        paths_unique(self.spec_entries())
    }

    /// A new, empty registry.
    pub fn new() -> (r: Registry)
        ensures
            r.spec_entries() == Seq::<CruftDirectory>::empty(),
            r.spec_scanned() == 0,
            !r.spec_complete(),
            r.wf(),
    {
        Registry { entries: Vec::new(), scanned: 0, complete: false }
    }

    /// The number of stored entries.
    pub fn entry_count(&self) -> (r: usize)
        ensures
            r == self.spec_entries().len(),
    {
        self.entries.len()
    }

    /// Appends a newly discovered entry. The caller guarantees the path
    /// is new, which the pruning walk does by construction.
    pub fn append(&mut self, entry: CruftDirectory)
        requires
            old(self).wf(),
            !has_path(old(self).spec_entries(), entry.path@),
        ensures
            final(self).wf(),
            final(self).spec_entries() == old(self).spec_entries().push(entry),
            final(self).spec_scanned() == old(self).spec_scanned(),
            final(self).spec_complete() == old(self).spec_complete(),
    {
        proof {
            assert forall|i: int, j: int|
                0 <= i < j < self.entries@.push(entry).len() implies self.entries@.push(entry)[i].path@
                != self.entries@.push(entry)[j].path@ by {
                if j == self.entries@.len() {
                    assert(!(self.entries@[i].path@ == entry.path@));
                }
            }
        }
        self.entries.push(entry);
    }

    /// An immutable copy of the current entries.
    pub fn snapshot(&self) -> (r: Vec<CruftDirectory>)
        ensures
            r@ == self.spec_entries(),
    {
        let mut r: Vec<CruftDirectory> = Vec::new();
        let mut i: usize = 0;
        while i < self.entries.len()
            invariant
                i <= self.entries@.len(),
                r@ == self.entries@.subrange(0, i as int),
            decreases self.entries@.len() - i,
        {
            r.push(self.entries[i].clone());
            proof {
                assert(r@ =~= self.entries@.subrange(0, i + 1 as int));
            }
            i = i + 1;
        }
        proof {
            assert(self.entries@.subrange(0, self.entries@.len() as int) =~= self.entries@);
        }
        r
    }

    /// Whether an entry with this path is stored.
    pub fn contains_path(&self, path: &String) -> (r: bool)
        ensures
            r == has_path(self.spec_entries(), path@),
    {
        let mut i: usize = 0;
        while i < self.entries.len()
            invariant
                i <= self.entries@.len(),
                forall|k: int| 0 <= k < i ==> self.entries@[k].path@ != path@,
            decreases self.entries@.len() - i,
        {
            if self.entries[i].path == *path {
                return true;
            }
            i = i + 1;
        }
        proof {
            if has_path(self.entries@, path@) {
                let k = choose|k: int|
                    0 <= k < self.entries@.len() && self.entries@[k].path@ == path@;
                assert(self.entries@[k].path@ != path@);
            }
        }
        false
    }

    /// Removes the entry with the given path, if present. Returns whether
    /// an entry was removed; the remaining entries keep their order.
    pub fn remove(&mut self, path: &String) -> (r: bool)
        requires
            old(self).wf(),
        ensures
            final(self).wf(),
            final(self).spec_entries() == old(self).spec_entries().filter(not_path(path@)),
            r == has_path(old(self).spec_entries(), path@),
            final(self).spec_scanned() == old(self).spec_scanned(),
            final(self).spec_complete() == old(self).spec_complete(),
    {
        let ghost s = self.entries@;
        let ghost sc = self.scanned;
        let ghost cm = self.complete;
        let ghost pred = not_path(path@);
        let mut i: usize = 0;
        while i < self.entries.len()
            invariant
                s == old(self).spec_entries(),
                sc == old(self).spec_scanned(),
                cm == old(self).spec_complete(),
                self.entries@ == s,
                self.scanned == sc,
                self.complete == cm,
                paths_unique(s),
                i <= s.len(),
                pred == not_path(path@),
                forall|k: int| 0 <= k < i ==> s[k].path@ != path@,
            decreases s.len() - i,
        {
            if self.entries[i].path == *path {
                let ghost idx = i as int;
                self.entries.remove(i);
                proof {
                    reveal(Seq::filter);
                    let a = s.subrange(0, idx);
                    let b = seq![s[idx]];
                    let c = s.subrange(idx + 1, s.len() as int);
                    assert(s =~= (a + b) + c);
                    Seq::filter_distributes_over_add(a + b, c, pred);
                    Seq::filter_distributes_over_add(a, b, pred);
                    assert forall|t: int| 0 <= t < a.len() implies pred(a[t]) by {
                        assert(a[t] == s[t]);
                        assert(s[t].path@ != path@);
                    }
                    assert forall|t: int| 0 <= t < c.len() implies pred(c[t]) by {
                        assert(c[t] == s[idx + 1 + t]);
                        assert(s[idx].path@ != s[idx + 1 + t].path@);
                    }
                    lemma_filter_keeps_all(a, pred);
                    lemma_filter_keeps_all(c, pred);
                    assert(b.drop_last() =~= Seq::<CruftDirectory>::empty());
                    assert(b.drop_last().filter(pred) == b.drop_last());
                    assert(b.last() == s[idx]);
                    assert(s[idx].path@ == path@);
                    assert(!pred(b.last()));
                    assert(b.filter(pred) =~= Seq::<CruftDirectory>::empty());
                    assert(s.filter(pred) =~= a + c);
                    assert(self.entries@ =~= a + c);
                    assert forall|x: int, y: int|
                        0 <= x < y < (a + c).len() implies (a + c)[x].path@ != (a + c)[y].path@ by {
                        if x < idx {
                            assert((a + c)[x] == a[x]);
                            assert(a[x] == s[x]);
                        } else {
                            assert((a + c)[x] == c[x - idx]);
                            assert(c[x - idx] == s[x + 1]);
                        }
                        if y < idx {
                            assert((a + c)[y] == a[y]);
                            assert(a[y] == s[y]);
                        } else {
                            assert((a + c)[y] == c[y - idx]);
                            assert(c[y - idx] == s[y + 1]);
                        }
                    }
                    assert(has_path(s, path@)) by {
                        assert(0 <= idx < s.len() && s[idx].path@ == path@);
                    }
                }
                return true;
            }
            i = i + 1;
        }
        proof {
            lemma_filter_keeps_all(s, pred);
            if has_path(s, path@) {
                let k = choose|k: int| 0 <= k < s.len() && s[k].path@ == path@;
                assert(s[k].path@ != path@);
            }
        }
        false
    }

    /// Adds `n` to the visited-entry tally, saturating at the maximum.
    pub fn add_scanned(&mut self, n: u64)
        ensures
            final(self).spec_scanned() == if old(self).spec_scanned() + n > u64::MAX {
                u64::MAX
            } else {
                (old(self).spec_scanned() + n) as u64
            },
            final(self).spec_entries() == old(self).spec_entries(),
            final(self).spec_complete() == old(self).spec_complete(),
    {
        if n > u64::MAX - self.scanned {
            self.scanned = u64::MAX;
        } else {
            self.scanned = self.scanned + n;
        }
    }

    /// How many filesystem entries the scan has visited so far.
    pub fn scanned_count(&self) -> (r: u64)
        ensures
            r == self.spec_scanned(),
    {
        self.scanned
    }

    /// Whether the scan has finished.
    pub fn is_complete(&self) -> (r: bool)
        ensures
            r == self.spec_complete(),
    {
        self.complete
    }

    /// Records that the scan has finished.
    pub fn mark_complete(&mut self)
        ensures
            final(self).spec_complete(),
            final(self).spec_entries() == old(self).spec_entries(),
            final(self).spec_scanned() == old(self).spec_scanned(),
    {
        self.complete = true;
    }
}

/// Filtering with a predicate that every element satisfies keeps the
/// sequence unchanged.
proof fn lemma_filter_keeps_all(s: Seq<CruftDirectory>, pred: spec_fn(CruftDirectory) -> bool)
    requires
        forall|i: int| 0 <= i < s.len() ==> pred(s[i]),
    ensures
        s.filter(pred) == s,
    decreases s.len(),
{
    reveal(Seq::filter);
    if s.len() > 0 {
        assert(forall|i: int| 0 <= i < s.drop_last().len() ==> s.drop_last()[i] == s[i]);
        lemma_filter_keeps_all(s.drop_last(), pred);
        assert(pred(s.last()));
        assert(s.drop_last().push(s.last()) =~= s);
    }
}

} // verus!
