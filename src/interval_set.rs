use vstd::prelude::*;

use crate::iter::Pitches;
use crate::pitch::Pitch;

verus! {

/// Every element is strictly smaller than every element after it.
pub open spec fn strictly_increasing(s: Seq<u8>) -> bool {
    forall|i: int, j: int| 0 <= i < j < s.len() ==> s[i] < s[j]
}

/// `i` splits `s` into the elements below `x` and those at or above it.
pub open spec fn splits_at(s: Seq<u8>, x: u8, i: int) -> bool {
    &&& 0 <= i <= s.len()
    &&& forall|k: int| 0 <= k < i ==> s[k] < x
    &&& forall|k: int| i <= k < s.len() ==> x <= s[k]
}

/// The index at which `x` is found in a sorted `s`, or would be inserted.
pub open spec fn position_of(s: Seq<u8>, x: u8) -> int {
    choose|i: int| splits_at(s, x, i)
}

/// The set `s` after `x` was inserted into its sorted position.
pub open spec fn inserted(s: Seq<u8>, x: u8) -> Seq<u8> {
    if s.contains(x) {
        s
    } else {
        s.insert(position_of(s, x), x)
    }
}

/// A split point of a sequence for a value is unique.
pub proof fn lemma_split_unique(s: Seq<u8>, x: u8, i: int)
    requires
        splits_at(s, x, i),
    ensures
        position_of(s, x) == i,
{
    let j = position_of(s, x);
    assert(splits_at(s, x, j));
    if j < i {
        assert(s[j] < x);
    } else if i < j {
        assert(s[i] < x);
    }
}

/// Inserting adds `x` to the values held and keeps the order strict.
pub proof fn lemma_inserted(s: Seq<u8>, x: u8)
    requires
        strictly_increasing(s),
    ensures
        strictly_increasing(inserted(s, x)),
        inserted(s, x).to_set() == s.to_set().insert(x),
        splits_at(s, x, position_of(s, x)),
{
    // the split point exists: take the number of elements below `x`
    let w = lemma_split_exists(s, x);
    lemma_split_unique(s, x, w);
    let t = inserted(s, x);
    if !s.contains(x) {
        let p = position_of(s, x);
        assert forall|a: int, b: int| 0 <= a < b < t.len() implies t[a] < t[b] by {
            if b < p {
            } else if b == p {
                assert(t[a] == s[a]);
            } else if a < p {
                assert(t[b] == s[b - 1]);
                assert(s[b - 1] != x);
            } else if a == p {
                assert(t[b] == s[b - 1]);
                assert(s[b - 1] != x);
            } else {
                assert(t[a] == s[a - 1]);
                assert(t[b] == s[b - 1]);
            }
        }
        assert forall|y: u8| t.contains(y) <==> s.to_set().insert(x).contains(y) by {
            if t.contains(y) {
                let k = t.index_of(y);
                if k < p {
                    assert(s[k] == y);
                } else if k > p {
                    assert(s[k - 1] == y);
                }
            }
            if s.contains(y) {
                let k = s.index_of(y);
                if k < p {
                    assert(t[k] == y);
                } else {
                    assert(t[k + 1] == y);
                }
            }
            if y == x {
                assert(t[p] == x);
            }
        }
        assert(t.to_set() =~= s.to_set().insert(x));
    } else {
        assert(t.to_set() =~= s.to_set().insert(x));
    }
}

/// The set after inserting each of `xs` in turn.
pub open spec fn insert_all(s: Seq<u8>, xs: Seq<u8>) -> Seq<u8>
    decreases xs.len(),
{
    if xs.len() == 0 {
        s
    } else {
        insert_all(inserted(s, xs[0]), xs.drop_first())
    }
}

/// Any sequence of insertions into a sorted set leaves it strictly
/// increasing, free of duplicates, and holding exactly the old values and
/// the inserted ones.
pub proof fn lemma_insert_all(s: Seq<u8>, xs: Seq<u8>)
    requires
        strictly_increasing(s),
    ensures
        strictly_increasing(insert_all(s, xs)),
        insert_all(s, xs).to_set() == s.to_set() + xs.to_set(),
    decreases xs.len(),
{
    if xs.len() == 0 {
        assert(s.to_set() + xs.to_set() =~= s.to_set());
    } else {
        lemma_inserted(s, xs[0]);
        lemma_insert_all(inserted(s, xs[0]), xs.drop_first());
        assert(xs =~= seq![xs[0]] + xs.drop_first());
        assert forall|y: u8| xs.to_set().contains(y) <==> (y == xs[0]
            || xs.drop_first().to_set().contains(y)) by {
            if xs.contains(y) && y != xs[0] {
                let k = xs.index_of(y);
                assert(xs.drop_first()[k - 1] == y);
            }
            if xs.drop_first().contains(y) {
                let k = xs.drop_first().index_of(y);
                assert(xs[k + 1] == y);
            }
        }
        assert(insert_all(s, xs).to_set() =~= s.to_set() + xs.to_set());
    }
}

/// Inserting a value a second time finds it where the first insertion put
/// it, reports that nothing was inserted, and leaves the set unchanged.
pub proof fn lemma_insert_twice(s: Seq<u8>, x: u8)
    requires
        strictly_increasing(s),
    ensures
        inserted(s, x).contains(x),
        position_of(inserted(s, x), x) == position_of(s, x),
        inserted(inserted(s, x), x) == inserted(s, x),
{
    lemma_inserted(s, x);
    let t = inserted(s, x);
    let p = position_of(s, x);
    if s.contains(x) {
        let k = s.index_of(x);
        if k > p {
            assert(s[p] < s[k]);
        }
        assert(s[p] == x);
    } else {
        assert(t[p] == x);
        assert(splits_at(t, x, p)) by {
            assert forall|k: int| p < k < t.len() implies x <= t[k] by {
                assert(t[k] == s[k - 1]);
            }
        }
    }
    assert(t[p] == x);
    lemma_split_unique(t, x, p);
}

/// The elements of `s` whose flag in `keep` is set, in order.
pub open spec fn kept(s: Seq<u8>, keep: Seq<bool>) -> Seq<u8>
    decreases s.len(),
{
    if s.len() == 0 || keep.len() == 0 {
        Seq::empty()
    } else if keep.last() {
        kept(s.drop_last(), keep.drop_last()).push(s.last())
    } else {
        kept(s.drop_last(), keep.drop_last())
    }
}

/// Some index splits every sequence that is sorted.
proof fn lemma_split_exists(s: Seq<u8>, x: u8) -> (i: int)
    requires
        strictly_increasing(s),
    ensures
        splits_at(s, x, i),
    decreases s.len(),
{
    if s.len() == 0 {
        0
    } else if s.last() < x {
        s.len() as int
    } else {
        let t = s.drop_last();
        let i = lemma_split_exists(t, x);
        assert forall|k: int| 0 <= k < i implies s[k] < x by {
            assert(t[k] == s[k]);
        }
        assert forall|k: int| i <= k < s.len() implies x <= s[k] by {
            if k < s.len() - 1 {
                assert(t[k] == s[k]);
            }
        }
        i
    }
}

/// An element of a sorted set is at least its index.
pub proof fn lemma_at_least_index(s: Seq<u8>, i: int)
    requires
        strictly_increasing(s),
        0 <= i < s.len(),
    ensures
        s[i] >= i,
    decreases i,
{
    if i > 0 {
        lemma_at_least_index(s, i - 1);
    }
}

/// A sorted set of values below `bound` has at most `bound` elements.
pub proof fn lemma_len_bound(s: Seq<u8>, bound: int)
    requires
        strictly_increasing(s),
        0 <= bound,
        forall|i: int| 0 <= i < s.len() ==> s[i] < bound,
    ensures
        s.len() <= bound,
{
    if s.len() > 0 {
        lemma_at_least_index(s, s.len() - 1);
        assert(s[s.len() - 1] < bound);
    }
}

/// Forward sorted set of unique intervals, backed by a `Vec`.
#[derive(Debug, Clone, Hash, PartialEq, Eq, PartialOrd, Ord, Default)]
pub struct IntervalSet {
    set: Vec<u8>,
}

impl View for IntervalSet {
    type V = Seq<u8>;

    closed spec fn view(&self) -> Seq<u8> {
        self.set@
    }
}

impl IntervalSet {
    /// The elements are sorted and free of duplicates.
    pub open spec fn wf(&self) -> bool {
        strictly_increasing(self@)
    }

    /// Create a new, empty `IntervalSet`.
    pub fn new() -> (r: IntervalSet)
        ensures
            r@ == Seq::<u8>::empty(),
            r.wf(),
    {
        IntervalSet { set: Vec::new() }
    }

    pub fn len(&self) -> (r: usize)
        ensures
            r == self@.len(),
    {
        self.set.len()
    }

    /// Binary search for `interval`: `Ok` with its index if present, else `Err`
    /// with the index at which it would be inserted.
    pub fn binary_search(&self, interval: &u8) -> (r: Result<usize, usize>)
        requires
            self.wf(),
        ensures
            match r {
                Ok(i) => i < self@.len() && self@[i as int] == *interval,
                Err(i) => !self@.contains(*interval),
            },
            splits_at(
                self@,
                *interval,
                match r {
                    Ok(i) => i as int,
                    Err(i) => i as int,
                },
            ),
    {
        let x = *interval;
        let mut lo: usize = 0;
        let mut hi: usize = self.set.len();
        while lo < hi
            invariant
                0 <= lo <= hi <= self@.len(),
                self.wf(),
                forall|k: int| 0 <= k < lo ==> self@[k] < x,
                forall|k: int| hi <= k < self@.len() ==> x <= self@[k],
            decreases hi - lo,
        {
            let mid = lo + (hi - lo) / 2;
            if self.set[mid] < x {
                lo = mid + 1;
            } else {
                hi = mid;
            }
        }
        if lo < self.set.len() && self.set[lo] == x {
            Ok(lo)
        } else {
            proof {
                if self@.contains(x) {
                    let k = self@.index_of(x);
                    assert(self@[k] == x);
                    if k >= lo as int && k != lo as int {
                        assert(self@[lo as int] < self@[k]);
                    }
                }
            }
            Err(lo)
        }
    }
}


impl IntervalSet {
    pub fn with_capacity(capacity: usize) -> (r: IntervalSet)
        ensures
            r@ == Seq::<u8>::empty(),
            r.wf(),
    {
        IntervalSet { set: Vec::with_capacity(capacity) }
    }

    /// Builds the set of the values in `vec`, sorted and without duplicates.
    pub fn from_vec(vec: Vec<u8>) -> (r: Self)
        ensures
            r.wf(),
            r@.to_set() == vec@.to_set(),
    {
        let mut is = IntervalSet::new();
        let mut i: usize = 0;
        while i < vec.len()
            invariant
                0 <= i <= vec@.len(),
                is.wf(),
                is@.to_set() == vec@.subrange(0, i as int).to_set(),
            decreases vec@.len() - i,
        {
            proof {
                lemma_inserted(is@, vec@[i as int]);
            }
            is.insert(vec[i]);
            proof {
                assert(vec@.subrange(0, i + 1) == vec@.subrange(0, i as int).push(vec@[i as int]));
                vec@.subrange(0, i as int).lemma_push_to_set_commute(vec@[i as int]);
            }
            i = i + 1;
        }
        assert(vec@.subrange(0, vec@.len() as int) == vec@);
        is
    }

    pub fn is_empty(&self) -> (r: bool)
        ensures
            r == (self@.len() == 0),
    {
        self.set.len() == 0
    }

    /// Insert an interval into sorted position.
    ///
    /// If the set did not have this interval, a tuple of the order index at which it
    /// was placed and true is returned.
    ///
    /// If the set did have this interval, a tuple of the index at which it was found
    /// and false is returned.
    pub fn insert(&mut self, interval: u8) -> (r: (usize, bool))
        requires
            old(self).wf(),
        ensures
            final(self).wf(),
            final(self)@ == inserted(old(self)@, interval),
            r.0 == position_of(old(self)@, interval),
            r.1 == !old(self)@.contains(interval),
    {
        match self.find_or_insert(interval) {
            Ok(i) => (i, false),
            Err(i) => (i, true),
        }
    }

    /// Find the interval and return the index with `Ok`, otherwise insert the
    /// interval and return the new interval index with `Err`.
    pub fn find_or_insert(&mut self, interval: u8) -> (r: Result<usize, usize>)
        requires
            old(self).wf(),
        ensures
            final(self).wf(),
            final(self)@ == inserted(old(self)@, interval),
            splits_at(old(self)@, interval, position_of(old(self)@, interval)),
            match r {
                Ok(i) => old(self)@.contains(interval) && i == position_of(old(self)@, interval),
                Err(i) => !old(self)@.contains(interval) && i == position_of(old(self)@, interval),
            },
    {
        match self.binary_search(&interval) {
            Ok(i) => {
                proof {
                    lemma_split_unique(self@, interval, i as int);
                }
                Ok(i)
            },
            Err(insert_at) => {
                proof {
                    lemma_split_unique(self@, interval, insert_at as int);
                }
                let ghost before = self@;
                self.set.insert(insert_at, interval);
                proof {
                    assert forall|a: int, b: int| 0 <= a < b < self@.len() implies self@[a]
                        < self@[b] by {
                        if b < insert_at {
                        } else if b == insert_at {
                            assert(self@[a] == before[a]);
                        } else if a < insert_at {
                            assert(self@[b] == before[b - 1]);
                            assert(before[b - 1] >= interval);
                            assert(before[b - 1] != interval);
                        } else if a == insert_at {
                            assert(self@[b] == before[b - 1]);
                            assert(before[b - 1] != interval);
                        } else {
                            assert(self@[a] == before[a - 1]);
                            assert(self@[b] == before[b - 1]);
                        }
                    }
                }
                Err(insert_at)
            },
        }
    }

    pub fn truncate(&mut self, new_len: usize)
        requires
            old(self).wf(),
        ensures
            final(self).wf(),
            new_len <= old(self)@.len() ==> final(self)@ == old(self)@.subrange(0, new_len as int),
            new_len > old(self)@.len() ==> final(self)@ == old(self)@,
    {
        self.set.truncate(new_len)
    }

    pub fn clear(&mut self)
        ensures
            final(self)@ == Seq::<u8>::empty(),
            final(self).wf(),
    {
        self.set.clear()
    }

    /// Removes and returns the largest interval, if any.
    pub fn pop(&mut self) -> (r: Option<u8>)
        requires
            old(self).wf(),
        ensures
            final(self).wf(),
            old(self)@.len() == 0 ==> r == None::<u8> && final(self)@ == old(self)@,
            old(self)@.len() > 0 ==> r == Some(old(self)@.last()) && final(self)@ == old(
                self,
            )@.drop_last(),
    {
        self.set.pop()
    }

    /// Removes and returns the interval at `index`.
    pub fn remove(&mut self, index: usize) -> (r: u8)
        requires
            old(self).wf(),
            index < old(self)@.len(),
        ensures
            final(self).wf(),
            r == old(self)@[index as int],
            final(self)@ == old(self)@.remove(index as int),
    {
        let r = self.set.remove(index);
        proof {
            let o = old(self)@;
            assert forall|a: int, b: int| 0 <= a < b < self@.len() implies self@[a]
                < self@[b] by {
                if a >= index {
                    assert(self@[a] == o[a + 1]);
                }
                if b >= index {
                    assert(self@[b] == o[b + 1]);
                }
            }
        }
        r
    }

    /// Removes `interval` if the set holds it, and returns it.
    pub fn remove_interval(&mut self, interval: &u8) -> (r: Option<u8>)
        requires
            old(self).wf(),
        ensures
            final(self).wf(),
            old(self)@.contains(*interval) ==> r == Some(*interval) && final(self)@ == old(
                self,
            )@.remove(position_of(old(self)@, *interval)),
            !old(self)@.contains(*interval) ==> r == None::<u8> && final(self)@ == old(self)@,
    {
        match self.binary_search(interval) {
            Ok(remove_at) => {
                proof {
                    lemma_split_unique(self@, *interval, remove_at as int);
                }
                Some(self.remove(remove_at))
            },
            Err(_) => None,
        }
    }

    /// Keeps the intervals for which `f` returns true, in order.
    pub fn retain<F>(&mut self, f: F) where F: Fn(&u8) -> bool
        requires
            old(self).wf(),
            forall|x: u8| #[trigger] f.requires((&x,)),
        ensures
            final(self).wf(),
            exists|keep: Seq<bool>|
                {
                    &&& keep.len() == old(self)@.len()
                    &&& forall|k: int|
                        0 <= k < keep.len() ==> f.ensures((&old(self)@[k],), #[trigger] keep[k])
                    &&& final(self)@ == kept(old(self)@, keep)
                },
    {
        let ghost keep: Seq<bool> = Seq::empty();
        let mut out: Vec<u8> = Vec::new();
        let mut i: usize = 0;
        while i < self.set.len()
            invariant
                0 <= i <= self@.len(),
                self.wf(),
                self@ == old(self)@,
                forall|x: u8| #[trigger] f.requires((&x,)),
                keep.len() == i,
                forall|k: int| 0 <= k < i ==> f.ensures((&self@[k],), #[trigger] keep[k]),
                out@ == kept(self@.subrange(0, i as int), keep),
                strictly_increasing(out@),
                forall|k: int| 0 <= k < out@.len() ==> out@[k] <= self@[i - 1],
            decreases self@.len() - i,
        {
            let x = self.set[i];
            let b = f(&x);
            proof {
                let old_keep = keep;
                keep = keep.push(b);
                assert(keep.drop_last() =~= old_keep);
                assert(self@.subrange(0, i + 1).drop_last() =~= self@.subrange(0, i as int));
                assert(self@.subrange(0, i + 1).last() == x);
            }
            if b {
                out.push(x);
            }
            i = i + 1;
        }
        proof {
            assert(self@.subrange(0, i as int) == self@);
        }
        self.set = out;
    }

    /// Removes the intervals at the indices `start..end` and returns them.
    pub fn drain(&mut self, start: usize, end: usize) -> (r: Vec<u8>)
        requires
            old(self).wf(),
            start <= end <= old(self)@.len(),
        ensures
            final(self).wf(),
            r@ == old(self)@.subrange(start as int, end as int),
            final(self)@ == old(self)@.subrange(0, start as int) + old(self)@.subrange(
                end as int,
                old(self)@.len() as int,
            ),
    {
        let mut drained: Vec<u8> = Vec::new();
        let mut rest: Vec<u8> = Vec::new();
        let mut i: usize = 0;
        while i < self.set.len()
            invariant
                0 <= i <= self@.len(),
                self@ == old(self)@,
                start <= end <= self@.len(),
                drained@ == self@.subrange(start as int, if i < start {
                    start as int
                } else if i < end {
                    i as int
                } else {
                    end as int
                }),
                rest@ == self@.subrange(0, if i < start {
                    i as int
                } else {
                    start as int
                }) + self@.subrange(end as int, if i < end {
                    end as int
                } else {
                    i as int
                }),
            decreases self@.len() - i,
        {
            let x = self.set[i];
            if i < start || i >= end {
                rest.push(x);
            } else {
                drained.push(x);
            }
            i = i + 1;
            proof {
                assert(drained@ =~= self@.subrange(start as int, if i < start {
                    start as int
                } else if i < end {
                    i as int
                } else {
                    end as int
                }));
                assert(rest@ =~= self@.subrange(0, if i < start {
                    i as int
                } else {
                    start as int
                }) + self@.subrange(end as int, if i < end {
                    end as int
                } else {
                    i as int
                }));
            }
        }
        let ghost before = self@;
        self.set = rest;
        proof {
            assert forall|a: int, b: int| 0 <= a < b < self@.len() implies self@[a] < self@[b] by {
                let ia = if a < start { a } else { a - start + end };
                let ib = if b < start { b } else { b - start + end };
                assert(self@[a] == before[ia]);
                assert(self@[b] == before[ib]);
            }
        }
        drained
    }

    #[inline]
    pub fn as_slice(&self) -> (r: &[u8])
        ensures
            r@ == self@,
    {
        self.set.as_slice()
    }

    /// Mutable access to the elements; writing through it may break the
    /// order of the set.
    #[inline]
    pub fn as_mut_slice(&mut self) -> (r: &mut [u8])
        ensures
            r@ == old(self)@,
            final(r)@ == final(self)@,
    {
        self.set.as_mut_slice()
    }

    /// The pitches of the intervals above `root`, lowest first.
    pub fn pitches(&self, root: Pitch) -> (r: Pitches<'_>)
        requires
            root.wf(),
        ensures
            r.inv(),
            r.root_spec() == root,
            r.remaining() == self@,
    {
        Pitches::new(root, self.as_slice())
    }
}

} // verus!
