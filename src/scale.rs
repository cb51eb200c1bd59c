use vstd::prelude::*;

use crate::interval_set::{
    inserted, lemma_inserted, lemma_len_bound, lemma_split_unique, position_of, splits_at,
    strictly_increasing, IntervalSet,
};
use crate::iter::{MatchIndices, Matches, Pitches, RMatchIndices, RMatches};
use crate::pattern::{is_scale, Pattern, Searcher};
use crate::pitch::Pitch;
use crate::OctaveError;
use crate::OCTAVE;

verus! {

/// A scale: the intervals of its degrees above the root, each within one
/// octave, in increasing order.
#[derive(Debug, Clone, Hash, PartialEq, Eq, PartialOrd, Ord, Default)]
pub struct Scale {
    set: IntervalSet,
}

impl View for Scale {
    type V = Seq<u8>;

    closed spec fn view(&self) -> Seq<u8> {
        self.set@
    }
}

impl Scale {
    /// The intervals are sorted and free of duplicates, each below an octave.
    pub open spec fn wf(&self) -> bool {
        is_scale(self@)
    }

    /// Inserting a value below an octave keeps every element below an octave.
    proof fn lemma_insert_bounded(s: Seq<u8>, x: u8)
        requires
            strictly_increasing(s),
            forall|i: int| 0 <= i < s.len() ==> s[i] < OCTAVE,
            x < OCTAVE,
        ensures
            forall|i: int| 0 <= i < inserted(s, x).len() ==> inserted(s, x)[i] < OCTAVE,
    {
        lemma_inserted(s, x);
        let t = inserted(s, x);
        assert forall|i: int| 0 <= i < t.len() implies t[i] < OCTAVE by {
            assert(t.to_set().contains(t[i]));
            if t[i] != x {
                assert(s.to_set().contains(t[i]));
                let k = s.index_of(t[i]);
                assert(s[k] == t[i]);
            }
        }
    }

    /// Creates a new `Scale`.
    ///
    /// `Scale`'s are initialized with a unison interval.
    pub fn new() -> (r: Scale)
        ensures
            r.wf(),
            r@ == seq![0u8],
    {
        let mut set: IntervalSet = IntervalSet::new();
        set.insert(0);
        proof {
            lemma_split_unique(Seq::<u8>::empty(), 0, 0);
            assert(Seq::<u8>::empty().insert(0, 0u8) =~= seq![0u8]);
        }
        Scale { set }
    }

    /// The scale of the intervals of `set`; it is well formed exactly when
    /// every interval lies below an octave.
    pub fn from_set(set: IntervalSet) -> (r: Scale)
        requires
            set.wf(),
        ensures
            r@ == set@,
            r.wf() <==> forall|i: int| 0 <= i < set@.len() ==> set@[i] < OCTAVE,
    {
        Scale { set }
    }

    #[inline]
    pub fn len(&self) -> (r: usize)
        ensures
            r == self@.len(),
    {
        self.set.len()
    }

    /// The twelve intervals of the octave.
    pub fn chromatic() -> (r: Scale)
        ensures
            r.wf(),
            r@.len() == OCTAVE,
            forall|i: int| 0 <= i < OCTAVE ==> r@[i] == i,
    {
        let mut set: IntervalSet = IntervalSet::new();
        let mut i: u8 = 0;
        while i < OCTAVE
            invariant
                i <= OCTAVE,
                set.wf(),
                set@.len() == i,
                forall|k: int| 0 <= k < i ==> set@[k] == k,
            decreases OCTAVE - i,
        {
            proof {
                assert(!set@.contains(i)) by {
                    if set@.contains(i) {
                        let k = set@.index_of(i);
                        assert(set@[k] == k);
                    }
                }
                assert(splits_at(set@, i, set@.len() as int));
                lemma_split_unique(set@, i, set@.len() as int);
            }
            set.insert(i);
            i = i + 1;
        }
        Scale { set }
    }

    /// Insert `interval` into sorted position.
    ///
    /// If the set did not have this `interval`, a tuple of the order index at which it
    /// was placed and true is returned.
    ///
    /// If the set did have this `interval`, a tuple of the index at which it was found
    /// and false is returned.
    ///
    /// It is an error if the `interval` is outside octave range.
    pub fn insert(&mut self, interval: u8) -> (r: (usize, bool))
        requires
            old(self).wf(),
            interval < OCTAVE,
        ensures
            final(self).wf(),
            final(self)@ == inserted(old(self)@, interval),
            r.0 == position_of(old(self)@, interval),
            r.1 == !old(self)@.contains(interval),
    {
        proof {
            lemma_inserted(self@, interval);
            Scale::lemma_insert_bounded(self@, interval);
        }
        match self.set.find_or_insert(interval) {
            Ok(i) => (i, false),
            Err(i) => (i, true),
        }
    }

    /// Insert `interval` into sorted position.
    ///
    /// Returns an error if `interval` is outside octave range.
    pub fn try_insert(&mut self, interval: u8) -> (r: Result<usize, OctaveError>)
        requires
            old(self).wf(),
        ensures
            final(self).wf(),
            interval >= OCTAVE ==> (r matches Err(e) && e.interval_spec() == interval)
                && final(self)@ == old(self)@,
            interval < OCTAVE ==> r == Ok::<usize, OctaveError>(
                position_of(old(self)@, interval) as usize,
            ) && final(self)@ == inserted(old(self)@, interval),
    {
        if interval >= OCTAVE {
            Err(OctaveError::new(interval))
        } else {
            proof {
                lemma_inserted(self@, interval);
                Scale::lemma_insert_bounded(self@, interval);
            }
            match self.set.find_or_insert(interval) {
                Ok(i) => Ok(i),
                Err(i) => Ok(i),
            }
        }
    }

    /// Find `interval` and return the index with `Ok`, otherwise insert the
    /// interval and return the new interval index with `Err`.
    ///
    /// It is an error if the `interval` outside octave range.
    pub fn find_or_insert(&mut self, interval: u8) -> (r: Result<usize, usize>)
        requires
            old(self).wf(),
            interval < OCTAVE,
        ensures
            final(self).wf(),
            final(self)@ == inserted(old(self)@, interval),
            match r {
                Ok(i) => old(self)@.contains(interval) && i == position_of(old(self)@, interval),
                Err(i) => !old(self)@.contains(interval) && i == position_of(old(self)@, interval),
            },
    {
        proof {
            lemma_inserted(self@, interval);
            Scale::lemma_insert_bounded(self@, interval);
        }
        self.set.find_or_insert(interval)
    }

    #[inline]
    pub fn as_slice(&self) -> (r: &[u8])
        ensures
            r@ == self@,
    {
        self.set.as_slice()
    }

    /// Mutable access to the intervals; writing through it may break the
    /// order of the set.
    #[inline]
    pub fn as_mut_slice(&mut self) -> (r: &mut [u8])
        ensures
            r@ == old(self)@,
            final(r)@ == final(self)@,
    {
        self.set.as_mut_slice()
    }

    /// The pitches of the intervals above `root`, lowest first.
    pub fn pitches(&self, root: Pitch) -> (r: Pitches<'_>)
        requires
            root.wf(),
        ensures
            r.inv(),
            r.root_spec() == root,
            r.remaining() == self@,
    {
        Pitches::new(root, self.as_slice())
    }

    pub fn matches<'a, P>(&'a self, pat: P) -> (r: Matches<'a, P>) where P: Pattern<'a>
        requires
            self.wf(),
        ensures
            pat.builds(self@, r.searcher()),
            r.searcher().inv(),
            r.searcher().scale_spec() == self@,
    {
        proof {
            lemma_len_bound(self@, OCTAVE as int);
        }
        Matches::from_searcher(pat.into_searcher(self.as_slice()))
    }

    pub fn rmatches<'a, P>(&'a self, pat: P) -> (r: RMatches<'a, P>) where P: Pattern<'a>
        requires
            self.wf(),
        ensures
            pat.builds(self@, r.searcher()),
            r.searcher().inv(),
            r.searcher().scale_spec() == self@,
    {
        proof {
            lemma_len_bound(self@, OCTAVE as int);
        }
        RMatches::from_searcher(pat.into_searcher(self.as_slice()))
    }

    pub fn match_indices<'a, P>(&'a self, pat: P) -> (r: MatchIndices<'a, P>) where P: Pattern<'a>
        requires
            self.wf(),
        ensures
            pat.builds(self@, r.searcher()),
            r.searcher().inv(),
            r.searcher().scale_spec() == self@,
    {
        proof {
            lemma_len_bound(self@, OCTAVE as int);
        }
        MatchIndices::from_searcher(pat.into_searcher(self.as_slice()))
    }

    pub fn rmatch_indices<'a, P>(&'a self, pat: P) -> (r: RMatchIndices<'a, P>) where P: Pattern<'a>
        requires
            self.wf(),
        ensures
            pat.builds(self@, r.searcher()),
            r.searcher().inv(),
            r.searcher().scale_spec() == self@,
    {
        proof {
            lemma_len_bound(self@, OCTAVE as int);
        }
        RMatchIndices::from_searcher(pat.into_searcher(self.as_slice()))
    }
}

} // verus!
