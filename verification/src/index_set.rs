//! A small sorted set of table indices (or byte values widened to `usize`).
//!
//! The analysis engine works with sets of terminal handles, sets of
//! non-terminal handles (the recursion guards), and sets of leading bytes.
//! All are kept in one canonical shape: a strictly ascending vector of
//! indices, viewed in specifications as the `Set` of its elements.

use vstd::prelude::*;

verus! {

/// A finite set of `usize` indices, stored strictly sorted in ascending
/// order, so that equal sets always have identical element vectors.
pub struct IndexSet {
    pub items: Vec<usize>,
}

impl IndexSet {
    /// Strictly ascending order: the canonical representation invariant.
    pub open spec fn wf(&self) -> bool {
        forall|i: int, j: int|
            0 <= i < j < self.items@.len() ==> self.items@[i] < self.items@[j]
    }

    /// The mathematical set of elements.
    pub open spec fn view(&self) -> Set<usize> {
        self.items@.to_set()
    }

    /// Within a strictly ascending vector no element repeats.
    proof fn lemma_wf_no_duplicates(&self)
        requires
            self.wf(),
        ensures
            self.items@.no_duplicates(),
    {
    }

    /// The view of a well-formed set is finite and as large as its vector.
    pub proof fn lemma_card(&self)
        requires
            self.wf(),
        ensures
            self@.finite(),
            self@.len() == self.items@.len(),
    {
        broadcast use vstd::seq_lib::seq_to_set_is_finite;

        self.lemma_wf_no_duplicates();
        self.items@.unique_seq_to_set();
    }

    /// The empty set.
    pub fn new() -> (r: IndexSet)
        ensures
            r.wf(),
            r@ == Set::<usize>::empty(),
    {
        let r = IndexSet { items: Vec::new() };
        proof {
            assert(r@ =~= Set::<usize>::empty());
        }
        r
    }

    /// How many elements the set holds.
    pub fn len(&self) -> (r: usize)
        requires
            self.wf(),
        ensures
            r == self@.len(),
    {
        proof {
            self.lemma_card();
        }
        self.items.len()
    }

    /// Membership test by linear scan.
    pub fn contains(&self, x: usize) -> (r: bool)
        ensures
            r == self@.contains(x),
    {
        let n = self.items.len();
        for i in 0..n
            invariant
                n == self.items@.len(),
                forall|k: int| 0 <= k < i ==> self.items@[k] != x,
        {
            if self.items[i] == x {
                return true;
            }
        }
        proof {
            assert(!self.items@.contains(x));
        }
        false
    }

    /// Adds `x`; the set is unchanged when `x` is already present.
    pub fn insert(&mut self, x: usize)
        requires
            old(self).wf(),
        ensures
            final(self).wf(),
            final(self)@ == old(self)@.insert(x),
    {
        let n = self.items.len();
        let mut pos: usize = 0;
        while pos < n && self.items[pos] < x
            invariant
                n == self.items@.len(),
                self.wf(),
                self == old(self),
                pos <= n,
                forall|k: int| 0 <= k < pos ==> self.items@[k] < x,
            decreases n - pos,
        {
            pos = pos + 1;
        }
        if pos < n && self.items[pos] == x {
            proof {
                assert(self.items@.contains(x));
                assert(self@ =~= old(self)@.insert(x));
            }
            return;
        }
        if pos == n {
            proof {
                assert(forall|k: int| 0 <= k < n ==> self.items@[k] < x);
                assert(!self.items@.contains(x));
            }
            self.items.push(x);
            proof {
                let so = old(self).items@;
                let sn = self.items@;
                assert(sn =~= so.push(x));
                assert forall|e: usize| sn.contains(e) implies (so.contains(e) || e
                    == x) by {
                    let k = choose|k: int| 0 <= k < sn.len() && sn[k] == e;
                    if k < so.len() {
                        assert(so[k] == e);
                    }
                }
                assert forall|e: usize| so.contains(e) implies sn.contains(e) by {
                    let k = choose|k: int| 0 <= k < so.len() && so[k] == e;
                    assert(sn[k] == e);
                }
                assert(sn.contains(x)) by {
                    assert(sn[sn.len() - 1] == x);
                }
                assert(self@ =~= old(self)@.insert(x));
            }
            return;
        }
        proof {
            assert(forall|k: int| 0 <= k < pos ==> self.items@[k] < x);
            assert(self.items@[pos as int] > x);
            assert(forall|k: int| pos <= k < n ==> self.items@[k] > x) by {
                assert(forall|k: int|
                    pos < k < n ==> self.items@[k] > self.items@[pos as int]);
            }
            assert(!self.items@.contains(x));
        }
        self.items.insert(pos, x);
        proof {
            let s_new = self.items@;
            let s_old = old(self).items@;
            assert(forall|e: usize| s_new.contains(e) ==> (e == x || s_old.contains(e)))
                by {
                assert(forall|k: int| #![auto] 0 <= k < s_new.len() ==> (s_new[k] == x
                    || (k < pos && s_new[k] == s_old[k]) || (k > pos && s_new[k] == s_old[
                    k - 1])));
            }
            assert(forall|e: usize| s_old.contains(e) ==> s_new.contains(e)) by {
                assert(forall|k: int| #![auto] 0 <= k < s_old.len() ==> s_old[k]
                    == (if k < pos {
                    s_new[k]
                } else {
                    s_new[k + 1]
                }));
            }
            assert(s_new.contains(x)) by {
                assert(s_new[pos as int] == x);
            }
            assert(self@ =~= old(self)@.insert(x));
        }
    }

    /// Unions `other` into `self`.
    pub fn union_with(&mut self, other: &IndexSet)
        requires
            old(self).wf(),
        ensures
            final(self).wf(),
            final(self)@ == old(self)@ + other@,
    {
        let n = other.items.len();
        for i in 0..n
            invariant
                n == other.items@.len(),
                self.wf(),
                self@ == old(self)@ + other.items@.take(i as int).to_set(),
        {
            proof {
                assert(other.items@.take(i + 1).drop_last() =~= other.items@.take(
                    i as int,
                ));
                assert(other.items@.take(i + 1).last() == other.items@[i as int]);
            }
            self.insert(other.items[i]);
            proof {
                assert(self@ =~= old(self)@ + other.items@.take(i + 1).to_set());
            }
        }
        proof {
            assert(other.items@.take(n as int) =~= other.items@);
            assert(self@ =~= old(self)@ + other@);
        }
    }

    /// True iff the two sets share no element.
    pub fn is_disjoint(&self, other: &IndexSet) -> (r: bool)
        ensures
            r == self@.disjoint(other@),
    {
        let n = self.items.len();
        for i in 0..n
            invariant
                n == self.items@.len(),
                forall|k: int| 0 <= k < i ==> !other@.contains(#[trigger] self.items@[k]),
        {
            if other.contains(self.items[i]) {
                proof {
                    assert(self@.contains(self.items@[i as int]));
                }
                return false;
            }
        }
        proof {
            assert forall|e: usize| self@.contains(e) implies !other@.contains(e) by {
                let k = choose|k: int| 0 <= k < self.items@.len() && self.items@[k] == e;
            }
        }
        true
    }
}

/// The elements of `s` below `bound`, in ascending order.
pub open spec fn sorted_elems(s: Set<usize>, bound: nat) -> Seq<usize>
    decreases bound,
{
    if bound == 0 {
        Seq::empty()
    } else {
        let pre = sorted_elems(s, (bound - 1) as nat);
        if s.contains((bound - 1) as usize) {
            pre.push((bound - 1) as usize)
        } else {
            pre
        }
    }
}

/// `sorted_elems` is strictly ascending and holds exactly the elements of
/// `s` below `bound`.
pub proof fn lemma_sorted_elems_props(s: Set<usize>, bound: nat)
    requires
        bound <= usize::MAX as nat + 1,
    ensures
        forall|i: int, j: int|
            0 <= i < j < sorted_elems(s, bound).len() ==> sorted_elems(s, bound)[i]
                < sorted_elems(s, bound)[j],
        forall|i: int|
            0 <= i < sorted_elems(s, bound).len() ==> (#[trigger] sorted_elems(s, bound)[i]
                as nat) < bound && s.contains(sorted_elems(s, bound)[i]),
        forall|x: usize| s.contains(x) && (x as nat) < bound ==> sorted_elems(s, bound).contains(x),
    decreases bound,
{
    if bound == 0 {
    } else {
        lemma_sorted_elems_props(s, (bound - 1) as nat);
        let pre = sorted_elems(s, (bound - 1) as nat);
        let cur = sorted_elems(s, bound);
        if s.contains((bound - 1) as usize) {
            assert(forall|i: int| 0 <= i < pre.len() ==> cur[i] == pre[i]);
            assert(cur[cur.len() - 1] == (bound - 1) as usize);
            assert forall|i: int, j: int| 0 <= i < j < cur.len() implies cur[i]
                < cur[j] by {
                if j < pre.len() {
                    assert(pre[i] < pre[j]);
                } else {
                    assert(j == cur.len() - 1);
                    assert(cur[i] == pre[i]);
                    assert((pre[i] as nat) < bound - 1);
                    assert(cur[j] == (bound - 1) as usize);
                }
            }
        }
        assert forall|x: usize|
            s.contains(x) && (x as nat) < bound implies cur.contains(x) by {
            if (x as nat) < bound - 1 {
                assert(pre.contains(x));
                let k = choose|k: int| 0 <= k < pre.len() && pre[k] == x;
                assert(cur[k] == x);
            } else {
                assert(x == (bound - 1) as usize);
                assert(cur[cur.len() - 1] == x);
            }
        }
    }
}

/// Two strictly ascending sequences with the same elements are the same
/// sequence.
pub proof fn lemma_sorted_unique(a: Seq<usize>, b: Seq<usize>)
    requires
        forall|i: int, j: int| 0 <= i < j < a.len() ==> a[i] < a[j],
        forall|i: int, j: int| 0 <= i < j < b.len() ==> b[i] < b[j],
        forall|x: usize| a.contains(x) <==> b.contains(x),
    ensures
        a == b,
    decreases a.len(),
{
    if a.len() == 0 {
        if b.len() > 0 {
            assert(b.contains(b[0]));
            assert(a.contains(b[0]));
        }
        assert(a =~= b);
    } else {
        assert(a.contains(a[0]));
        assert(b.contains(a[0]));
        if b.len() == 0 {
            assert(!b.contains(a[0]));
        }
        let ka = choose|k: int| 0 <= k < b.len() && b[k] == a[0];
        assert(b[0] <= b[ka]);
        assert(b.contains(b[0]));
        assert(a.contains(b[0]));
        let kb = choose|k: int| 0 <= k < a.len() && a[k] == b[0];
        assert(a[0] <= a[kb]);
        assert(a[0] == b[0]);
        let at = a.drop_first();
        let bt = b.drop_first();
        assert forall|x: usize| at.contains(x) implies bt.contains(x) by {
            let k = choose|k: int| 0 <= k < at.len() && at[k] == x;
            assert(a[k + 1] == x);
            assert(x > a[0]);
            assert(b.contains(x));
            let k2 = choose|k2: int| 0 <= k2 < b.len() && b[k2] == x;
            assert(k2 > 0);
            assert(bt[k2 - 1] == x);
        }
        assert forall|x: usize| bt.contains(x) implies at.contains(x) by {
            let k = choose|k: int| 0 <= k < bt.len() && bt[k] == x;
            assert(b[k + 1] == x);
            assert(x > b[0]);
            assert(a.contains(x));
            let k2 = choose|k2: int| 0 <= k2 < a.len() && a[k2] == x;
            assert(k2 > 0);
            assert(at[k2 - 1] == x);
        }
        lemma_sorted_unique(at, bt);
        assert(a =~= seq![a[0]] + at);
        assert(b =~= seq![b[0]] + bt);
    }
}

impl IndexSet {
    /// A well-formed set whose elements lie below `bound` is stored exactly
    /// as the ascending sequence of its elements.
    pub proof fn lemma_canonical(&self, bound: nat)
        requires
            bound <= usize::MAX as nat + 1,
            self.wf(),
            forall|x: usize| self@.contains(x) ==> (x as nat) < bound,
        ensures
            self.items@ == sorted_elems(self@, bound),
    {
        lemma_sorted_elems_props(self@, bound);
        assert forall|x: usize|
            self.items@.contains(x) implies sorted_elems(self@, bound).contains(x) by {
            assert(self@.contains(x));
        }
        assert forall|x: usize|
            sorted_elems(self@, bound).contains(x) implies self.items@.contains(x) by {
            let k = choose|k: int|
                0 <= k < sorted_elems(self@, bound).len() && sorted_elems(self@, bound)[k]
                    == x;
            assert(self@.contains(x));
        }
        lemma_sorted_unique(self.items@, sorted_elems(self@, bound));
    }
}

} // verus!
