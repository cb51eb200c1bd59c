use vstd::prelude::*;

use crate::interval_set::{
    inserted, lemma_len_bound, lemma_split_unique, position_of, strictly_increasing, IntervalSet,
};
use crate::iter::{MatchIndices, Matches, Pitches, RMatchIndices, RMatches};
use crate::pattern::{Pattern, Searcher};
use crate::pitch::Pitch;

verus! {

/// A chord: the intervals of its notes above the root, in increasing order;
/// intervals past the octave are allowed.
#[derive(Debug, Clone, Hash, PartialEq, Eq, PartialOrd, Ord, Default)]
pub struct Chord {
    set: IntervalSet,
}

impl View for Chord {
    type V = Seq<u8>;

    closed spec fn view(&self) -> Seq<u8> {
        self.set@
    }
}

impl Chord {
    /// The intervals are sorted and free of duplicates.
    pub open spec fn wf(&self) -> bool {
        strictly_increasing(self@)
    }

    /// Creates a new `Chord`.
    ///
    /// `Chord`'s are initialized with a unison interval.
    pub fn new() -> (r: Chord)
        ensures
            r.wf(),
            r@ == seq![0u8],
    {
        let mut set: IntervalSet = IntervalSet::new();
        set.insert(0);
        proof {
            lemma_split_unique(Seq::<u8>::empty(), 0, 0);
            assert(Seq::<u8>::empty().insert(0, 0u8) =~= seq![0u8]);
        }
        Chord { set }
    }

    /// The chord of the intervals of `set`.
    pub fn from_set(set: IntervalSet) -> (r: Chord)
        requires
            set.wf(),
        ensures
            r@ == set@,
            r.wf(),
    {
        Chord { set }
    }

    #[inline]
    pub fn len(&self) -> (r: usize)
        ensures
            r == self@.len(),
    {
        self.set.len()
    }

    /// Insert `interval` into sorted position; the index and whether it was new.
    pub fn insert(&mut self, interval: u8) -> (r: (usize, bool))
        requires
            old(self).wf(),
        ensures
            final(self).wf(),
            final(self)@ == inserted(old(self)@, interval),
            r.0 == position_of(old(self)@, interval),
            r.1 == !old(self)@.contains(interval),
    {
        self.set.insert(interval)
    }

    /// Find `interval` and return the index with `Ok`, otherwise insert the
    /// interval and return the new interval index with `Err`.
    pub fn find_or_insert(&mut self, interval: u8) -> (r: Result<usize, usize>)
        requires
            old(self).wf(),
        ensures
            final(self).wf(),
            final(self)@ == inserted(old(self)@, interval),
            match r {
                Ok(i) => old(self)@.contains(interval) && i == position_of(old(self)@, interval),
                Err(i) => !old(self)@.contains(interval) && i == position_of(old(self)@, interval),
            },
    {
        self.set.find_or_insert(interval)
    }

    #[inline]
    pub fn as_slice(&self) -> (r: &[u8])
        ensures
            r@ == self@,
    {
        self.set.as_slice()
    }

    /// Mutable access to the intervals; writing through it may break the
    /// order of the set.
    #[inline]
    pub fn as_mut_slice(&mut self) -> (r: &mut [u8])
        ensures
            r@ == old(self)@,
            final(r)@ == final(self)@,
    {
        self.set.as_mut_slice()
    }

    /// The pitches of the intervals above `root`, lowest first.
    pub fn pitches(&self, root: Pitch) -> (r: Pitches<'_>)
        requires
            root.wf(),
        ensures
            r.inv(),
            r.root_spec() == root,
            r.remaining() == self@,
    {
        Pitches::new(root, self.as_slice())
    }

    pub fn matches<'a, P>(&'a self, pat: P) -> (r: Matches<'a, P>) where P: Pattern<'a>
        requires
            self.wf(),
        ensures
            pat.builds(self@, r.searcher()),
            r.searcher().inv(),
            r.searcher().scale_spec() == self@,
    {
        proof {
            lemma_len_bound(self@, 256);
        }
        Matches::from_searcher(pat.into_searcher(self.as_slice()))
    }

    pub fn rmatches<'a, P>(&'a self, pat: P) -> (r: RMatches<'a, P>) where P: Pattern<'a>
        requires
            self.wf(),
        ensures
            pat.builds(self@, r.searcher()),
            r.searcher().inv(),
            r.searcher().scale_spec() == self@,
    {
        proof {
            lemma_len_bound(self@, 256);
        }
        RMatches::from_searcher(pat.into_searcher(self.as_slice()))
    }

    pub fn match_indices<'a, P>(&'a self, pat: P) -> (r: MatchIndices<'a, P>) where P: Pattern<'a>
        requires
            self.wf(),
        ensures
            pat.builds(self@, r.searcher()),
            r.searcher().inv(),
            r.searcher().scale_spec() == self@,
    {
        proof {
            lemma_len_bound(self@, 256);
        }
        MatchIndices::from_searcher(pat.into_searcher(self.as_slice()))
    }

    pub fn rmatch_indices<'a, P>(&'a self, pat: P) -> (r: RMatchIndices<'a, P>) where P: Pattern<'a>
        requires
            self.wf(),
        ensures
            pat.builds(self@, r.searcher()),
            r.searcher().inv(),
            r.searcher().scale_spec() == self@,
    {
        proof {
            lemma_len_bound(self@, 256);
        }
        RMatchIndices::from_searcher(pat.into_searcher(self.as_slice()))
    }
}

} // verus!
