//! A depth-first directory walk driven from outside: the walker says which
//! directory to list next, and is handed each listing in turn. Entries are
//! visited in the order a recursive descent would visit them.

use vstd::prelude::*;
use crate::classify::{DirEntry, EntryKind, is_candidate};

verus! {

/// The paths of the candidate entries of `s`, in order.
pub open spec fn selected(s: Seq<DirEntry>) -> Seq<Seq<char>>
    decreases s.len(),
{
    if s.len() == 0 {
        Seq::empty()
    } else {
        let rest = selected(s.drop_last());
        if is_candidate(s.last()) {
            rest.push(s.last().path@)
        } else {
            rest
        }
    }
}

/// A path is found exactly when some candidate entry has it: no entry whose
/// extension is outside the allow-list, and no directory, is ever found on its
/// own account.
pub proof fn lemma_selected_only_candidates(s: Seq<DirEntry>, p: Seq<char>)
    ensures
        selected(s).contains(p) <==> exists|i: int|
            0 <= i < s.len() && s[i].path@ == p && is_candidate(#[trigger] s[i]),
    decreases s.len(),
{
    if s.len() > 0 {
        let t = s.drop_last();
        lemma_selected_only_candidates(t, p);
        if selected(s).contains(p) {
            if selected(t).contains(p) {
                let i = choose|i: int| 0 <= i < t.len() && t[i].path@ == p && is_candidate(#[trigger] t[i]);
                assert(s[i] == t[i]);
            } else {
                let j = choose|j: int| 0 <= j < selected(s).len() && selected(s)[j] == p;
                assert(j == selected(t).len());
                assert(s[s.len() - 1] == s.last());
            }
        }
        if exists|i: int| 0 <= i < s.len() && s[i].path@ == p && is_candidate(#[trigger] s[i]) {
            let i = choose|i: int| 0 <= i < s.len() && s[i].path@ == p && is_candidate(#[trigger] s[i]);
            if i < s.len() - 1 {
                assert(t[i] == s[i]);
                let j = choose|j: int| 0 <= j < selected(t).len() && selected(t)[j] == p;
                assert(selected(s)[j] == p);
            } else {
                assert(selected(s)[selected(s).len() - 1] == p);
            }
        }
    }
}

/// Candidates of two runs of entries are those of the first, then those of
/// the second.
pub proof fn lemma_selected_append(a: Seq<DirEntry>, b: Seq<DirEntry>)
    ensures
        selected(a + b) == selected(a) + selected(b),
    decreases b.len(),
{
    if b.len() == 0 {
        assert(a + b =~= a);
        assert(selected(a) + selected(b) =~= selected(a));
    } else {
        lemma_selected_append(a, b.drop_last());
        assert((a + b).drop_last() =~= a + b.drop_last());
        assert((a + b).last() == b.last());
        if is_candidate(b.last()) {
            assert(selected(a) + selected(b) =~= (selected(a) + selected(b.drop_last())).push(b.last().path@));
        }
    }
}

/// Over a whole walk, a path is found exactly when some visited entry that
/// is a candidate has it: no directory, and no file whose extension is off
/// the allow-list, is ever handed on.
pub proof fn lemma_walk_finds_only_candidates(w: Walker, p: Seq<char>)
    requires
        w.wf(),
    ensures
        w.found().contains(p) <==> exists|i: int|
            0 <= i < w.visited().len() && w.visited()[i].path@ == p && is_candidate(
                #[trigger] w.visited()[i],
            ),
{
    lemma_selected_only_candidates(w.visited(), p);
}

/// Entries with pairwise distinct paths give each candidate path once.
pub proof fn lemma_selected_no_duplicates(s: Seq<DirEntry>)
    requires
        forall|a: int, b: int| 0 <= a < b < s.len() ==> (#[trigger] s[a]).path@ != (#[trigger] s[b]).path@,
    ensures
        selected(s).no_duplicates(),
    decreases s.len(),
{
    if s.len() > 0 {
        let t = s.drop_last();
        assert forall|a: int, b: int| 0 <= a < b < t.len() implies (#[trigger] t[a]).path@ != (#[trigger] t[b]).path@ by {
            assert(t[a] == s[a] && t[b] == s[b]);
        }
        lemma_selected_no_duplicates(t);
        if is_candidate(s.last()) {
            lemma_selected_only_candidates(t, s.last().path@);
            if selected(t).contains(s.last().path@) {
                let i = choose|i: int| 0 <= i < t.len() && t[i].path@ == s.last().path@ && is_candidate(#[trigger] t[i]);
                assert(t[i] == s[i]);
                assert(s[s.len() - 1] == s.last());
            }
            let r = selected(t).push(s.last().path@);
            assert forall|a: int, b: int| 0 <= a < b < r.len() implies r[a] != r[b] by {
                if b == r.len() - 1 {
                    assert(selected(t)[a] == r[a]);
                }
            }
        }
    }
}

/// A walk whose visited entries have pairwise distinct paths (as the entries
/// of a directory tree walked without following links do) hands each file
/// on once.
pub proof fn lemma_walk_finds_each_once(w: Walker)
    requires
        w.wf(),
        forall|a: int, b: int|
            0 <= a < b < w.visited().len() ==> (#[trigger] w.visited()[a]).path@ != (
            #[trigger] w.visited()[b]).path@,
    ensures
        w.found().no_duplicates(),
{
    lemma_selected_no_duplicates(w.visited());
}

/// The index of the first directory in `s`, or its length where there is none.
pub open spec fn first_dir(s: Seq<DirEntry>) -> int
    decreases s.len(),
{
    if s.len() == 0 {
        0
    } else if s[0].kind == EntryKind::Directory {
        0
    } else {
        1 + first_dir(s.drop_first())
    }
}

pub proof fn lemma_first_dir(s: Seq<DirEntry>)
    ensures
        0 <= first_dir(s) <= s.len(),
        forall|j: int| 0 <= j < first_dir(s) ==> s[j].kind != EntryKind::Directory,
        first_dir(s) < s.len() ==> s[first_dir(s)].kind == EntryKind::Directory,
    decreases s.len(),
{
    if s.len() > 0 && s[0].kind != EntryKind::Directory {
        lemma_first_dir(s.drop_first());
        assert forall|j: int| 0 <= j < first_dir(s) implies s[j].kind != EntryKind::Directory by {
            if j > 0 {
                assert(s[j] == s.drop_first()[j - 1]);
            }
        }
    }
}

/// The state of a walk: entries still to visit (a stack, next on top) and
/// the candidate paths found so far.
pub struct Walker {
    stack: Vec<DirEntry>,
    found: Vec<String>,
    visited: Ghost<Seq<DirEntry>>,
}

impl Walker {
    /// The entries still to visit, in visiting order.
    pub closed spec fn pending(&self) -> Seq<DirEntry> {
        Seq::new(self.stack@.len(), |i: int| self.stack@[self.stack@.len() - 1 - i])
    }

    /// The candidate paths found so far, in visiting order.
    pub closed spec fn found(&self) -> Seq<Seq<char>> {
        self.found@.map_values(|p: String| p@)
    }

    /// Every entry visited so far, directories included, in visiting order.
    pub closed spec fn visited(&self) -> Seq<DirEntry> {
        self.visited@
    }

    /// What has been found is exactly the candidates among what has been
    /// visited.
    pub open spec fn wf(&self) -> bool {
        self.found() == selected(self.visited())
    }

    /// A walk that has visited nothing; hand it the root's listing first.
    pub fn new() -> (r: Walker)
        ensures
            r.wf(),
            r.pending() == Seq::<DirEntry>::empty(),
            r.visited() == Seq::<DirEntry>::empty(),
            r.found() == Seq::<Seq<char>>::empty(),
    {
        let r = Walker { stack: Vec::new(), found: Vec::new(), visited: Ghost(Seq::empty()) };
        assert(r.pending() =~= Seq::<DirEntry>::empty());
        assert(r.found() =~= Seq::<Seq<char>>::empty());
        r
    }

    /// Hands over the listing of the directory that was asked for last (or of
    /// the root): its entries are visited next, in listing order, before
    /// whatever was pending.
    pub fn push_listing(&mut self, entries: Vec<DirEntry>)
        ensures
            final(self).pending() == entries@ + old(self).pending(),
            final(self).found() == old(self).found(),
            final(self).visited() == old(self).visited(),
            old(self).wf() ==> final(self).wf(),
    {
        let mut entries = entries;
        let ghost all = entries@;
        let ghost before = self.pending();
        while entries.len() > 0
            invariant
                self.found() == old(self).found(),
                self.visited() == old(self).visited(),
                all.len() >= entries@.len(),
                entries@ == all.take(entries@.len() as int),
                self.pending() == all.skip(entries@.len() as int) + before,
            decreases entries@.len(),
        {
            let ghost pend0 = self.pending();
            let ghost n = entries@.len() as int;
            let e = entries.pop().unwrap();
            assert(e == all[n - 1]);
            self.stack.push(e);
            proof {
                assert(all.skip(n - 1) =~= seq![all[n - 1]] + all.skip(n));
                assert(all.skip(n - 1) + before =~= seq![all[n - 1]] + (all.skip(n) + before));
                assert(self.pending() =~= seq![all[n - 1]] + pend0);
            }
        }
        assert(all.skip(0) == all);
    }

    /// Visits pending entries up to the next directory: each candidate file
    /// among them is recorded, in order. Returns the directory to list next,
    /// or `None` when the walk is over.
    pub fn advance(&mut self) -> (r: Option<String>)
        ensures
            ({
                let p = old(self).pending();
                let k = first_dir(p);
                &&& final(self).found() == old(self).found() + selected(p.take(k))
                &&& k < p.len() ==> r == Some(p[k].path) && final(self).pending() == p.skip(k + 1)
                    && final(self).visited() == old(self).visited() + p.take(k + 1)
                &&& k == p.len() ==> r is None && final(self).pending() == Seq::<DirEntry>::empty()
                    && final(self).visited() == old(self).visited() + p
            }),
            old(self).wf() ==> final(self).wf(),
    {
        let ghost p = self.pending();
        let ghost k = first_dir(p);
        proof {
            lemma_first_dir(p);
        }
        let ghost mut i: int = 0;
        while self.stack.len() > 0
            invariant
                0 <= i <= k,
                p == old(self).pending(),
                k == first_dir(p),
                0 <= k <= p.len(),
                forall|j: int| 0 <= j < k ==> p[j].kind != EntryKind::Directory,
                k < p.len() ==> p[k].kind == EntryKind::Directory,
                self.pending() == p.skip(i),
                self.stack@.len() == p.len() - i,
                self.found() == old(self).found() + selected(p.take(i)),
                self.visited() == old(self).visited() + p.take(i),
                old(self).wf() ==> self.wf(),
            decreases self.stack@.len(),
        {
            let ghost st = self.stack@;
            assert(st[st.len() - 1] == p.skip(i)[0]);
            let e = self.stack.pop().unwrap();
            assert(e == p[i]);
            proof {
                assert(self.stack@ =~= st.drop_last());
                assert forall|j: int| 0 <= j < self.pending().len() implies self.pending()[j]
                    == p.skip(i + 1)[j] by {
                    assert(p.skip(i + 1)[j] == p.skip(i)[j + 1]);
                }
                assert(self.pending() =~= p.skip(i + 1));
                assert(p.take(i + 1).drop_last() =~= p.take(i));
                assert(p.take(i + 1).last() == p[i]);
                let v0 = old(self).visited();
                lemma_selected_append(v0, p.take(i));
                lemma_selected_append(v0, p.take(i + 1));
                self.visited = Ghost(v0 + p.take(i + 1));
            }
            match e.kind {
                EntryKind::Directory => {
                    assert(i == k);
                    assert(selected(p.take(k + 1)) == selected(p.take(k)));
                    return Some(e.path);
                },
                EntryKind::File => {
                    if e.is_candidate() {
                        let ghost f0 = self.found();
                        self.found.push(e.path);
                        assert(self.found() =~= f0.push(p[i].path@));
                        assert(self.found() =~= old(self).found() + selected(p.take(i + 1)));
                    } else {
                        assert(self.found() =~= old(self).found() + selected(p.take(i + 1)));
                    }
                },
                EntryKind::Other => {
                    assert(self.found() =~= old(self).found() + selected(p.take(i + 1)));
                },
            }
            proof {
                i = i + 1;
            }
        }
        assert(p.skip(i).len() == 0);
        assert(p.take(i) =~= p);
        assert(self.pending() =~= Seq::<DirEntry>::empty());
        None
    }

    /// The candidate paths found so far, in visiting order.
    pub fn into_candidates(self) -> (r: Vec<String>)
        ensures
            self.wf() ==> r@.map_values(|p: String| p@) == selected(self.visited()),
            r@.map_values(|p: String| p@) == self.found(),
    {
        self.found
    }
}

} // verus!
