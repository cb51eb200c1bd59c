use vstd::prelude::*;

use crate::pattern::{DoubleEndedSearcher, Pattern, ReverseSearcher, Searcher};
use crate::pitch::{interval_of, pitch_of, Pitch};

verus! {

/// The pitch `i` semitones above `root`, if it can be named.
pub open spec fn above(root: Pitch, i: u8) -> Option<Pitch> {
    if interval_of(root) + i <= u8::MAX {
        Some(pitch_of((interval_of(root) + i) as u8))
    } else {
        None
    }
}

/// The pitches of a set of intervals above a root, walked from both ends.
#[derive(Debug)]
pub struct Pitches<'a> {
    root: Pitch,
    intervals: &'a [u8],
    front: usize,
    back: usize,
}

impl<'a> Pitches<'a> {
    /// The root the intervals are counted from.
    pub closed spec fn root_spec(&self) -> Pitch {
        self.root
    }

    /// The intervals not yet walked.
    pub closed spec fn remaining(&self) -> Seq<u8> {
        self.intervals@.subrange(self.front as int, self.back as int)
    }

    /// The root lies in range and the walked ends lie within the intervals.
    pub closed spec fn inv(&self) -> bool {
        &&& self.root.wf()
        &&& self.front <= self.back <= self.intervals@.len()
    }

    /// Walks `intervals` above `root`.
    pub(crate) fn new(root: Pitch, intervals: &'a [u8]) -> (r: Self)
        requires
            root.wf(),
        ensures
            r.inv(),
            r.root_spec() == root,
            r.remaining() == intervals@,
    {
        let r = Pitches { root, intervals, front: 0, back: intervals.len() };
        assert(r.remaining() =~= intervals@);
        r
    }

    /// The pitch of the lowest interval not yet walked.
    #[inline]
    pub fn next(&mut self) -> (r: Option<Pitch>)
        requires
            old(self).inv(),
        ensures
            final(self).inv(),
            final(self).root_spec() == old(self).root_spec(),
            old(self).remaining().len() == 0 ==> r == None::<Pitch> && final(self).remaining()
                == old(self).remaining(),
            old(self).remaining().len() > 0 ==> r == above(
                old(self).root_spec(),
                old(self).remaining()[0],
            ) && final(self).remaining() == old(self).remaining().drop_first(),
    {
        if self.front < self.back {
            let i = self.intervals[self.front];
            self.front = self.front + 1;
            proof {
                assert(self.remaining() =~= old(self).remaining().drop_first());
            }
            self.root.add_interval(i)
        } else {
            None
        }
    }

    /// The pitch of the highest interval not yet walked.
    #[inline]
    pub fn next_back(&mut self) -> (r: Option<Pitch>)
        requires
            old(self).inv(),
        ensures
            final(self).inv(),
            final(self).root_spec() == old(self).root_spec(),
            old(self).remaining().len() == 0 ==> r == None::<Pitch> && final(self).remaining()
                == old(self).remaining(),
            old(self).remaining().len() > 0 ==> r == above(
                old(self).root_spec(),
                old(self).remaining().last(),
            ) && final(self).remaining() == old(self).remaining().drop_last(),
    {
        if self.front < self.back {
            self.back = self.back - 1;
            let i = self.intervals[self.back];
            proof {
                assert(self.remaining() =~= old(self).remaining().drop_last());
            }
            self.root.add_interval(i)
        } else {
            None
        }
    }

    /// The number of pitches left, as a lower and an upper bound.
    #[inline]
    pub fn size_hint(&self) -> (r: (usize, Option<usize>))
        requires
            self.inv(),
        ensures
            r == (self.remaining().len() as usize, Some(self.remaining().len() as usize)),
    {
        let len = self.back - self.front;
        (len, Some(len))
    }

    /// The number of pitches left.
    pub fn count(self) -> (r: usize)
        requires
            self.inv(),
        ensures
            r == self.remaining().len(),
    {
        self.back - self.front
    }

    /// The pitch of the highest interval not yet walked.
    #[inline]
    pub fn last(self) -> (r: Option<Pitch>)
        requires
            self.inv(),
        ensures
            self.remaining().len() == 0 ==> r == None::<Pitch>,
            self.remaining().len() > 0 ==> r == above(self.root_spec(), self.remaining().last()),
    {
        let mut it = self;
        it.next_back()
    }

    /// Skips `n` intervals and yields the pitch of the next one.
    #[inline]
    pub fn nth(&mut self, n: usize) -> (r: Option<Pitch>)
        requires
            old(self).inv(),
        ensures
            final(self).inv(),
            final(self).root_spec() == old(self).root_spec(),
            n >= old(self).remaining().len() ==> r == None::<Pitch> && final(self).remaining()
                == Seq::<u8>::empty(),
            n < old(self).remaining().len() ==> r == above(
                old(self).root_spec(),
                old(self).remaining()[n as int],
            ) && final(self).remaining() == old(self).remaining().subrange(
                n + 1,
                old(self).remaining().len() as int,
            ),
    {
        if n < self.back - self.front {
            let i = self.intervals[self.front + n];
            self.front = self.front + n + 1;
            proof {
                assert(self.remaining() =~= old(self).remaining().subrange(
                    n + 1,
                    old(self).remaining().len() as int,
                ));
            }
            self.root.add_interval(i)
        } else {
            self.front = self.back;
            proof {
                assert(self.remaining() =~= Seq::<u8>::empty());
            }
            None
        }
    }

    /// Skips `n` intervals from the high end and yields the pitch of the next
    /// one down.
    #[inline]
    pub fn nth_back(&mut self, n: usize) -> (r: Option<Pitch>)
        requires
            old(self).inv(),
        ensures
            final(self).inv(),
            final(self).root_spec() == old(self).root_spec(),
            n >= old(self).remaining().len() ==> r == None::<Pitch> && final(self).remaining()
                == Seq::<u8>::empty(),
            n < old(self).remaining().len() ==> r == above(
                old(self).root_spec(),
                old(self).remaining()[old(self).remaining().len() - 1 - n],
            ) && final(self).remaining() == old(self).remaining().subrange(
                0,
                old(self).remaining().len() - 1 - n,
            ),
    {
        if n < self.back - self.front {
            self.back = self.back - n - 1;
            let i = self.intervals[self.back];
            proof {
                assert(self.remaining() =~= old(self).remaining().subrange(
                    0,
                    old(self).remaining().len() - 1 - n,
                ));
            }
            self.root.add_interval(i)
        } else {
            self.back = self.front;
            proof {
                assert(self.remaining() =~= Seq::<u8>::empty());
            }
            None
        }
    }
}

/// The scale entries at the indices `ix`.
pub open spec fn values_at(scale: Seq<u8>, ix: Seq<usize>) -> Seq<u8> {
    ix.map_values(|k: usize| scale[k as int])
}

/// What a match-index iterator yields for a payload: its first index and the
/// scale entries it names.
pub open spec fn indexed(scale: Seq<u8>, m: Option<Seq<usize>>) -> Option<(usize, Seq<u8>)> {
    match m {
        Some(ix) => Some((ix[0], values_at(scale, ix))),
        None => None,
    }
}

/// What a match iterator yields for a payload: the scale entries it names.
pub open spec fn valued(scale: Seq<u8>, m: Option<Seq<usize>>) -> Option<Seq<u8>> {
    match m {
        Some(ix) => Some(values_at(scale, ix)),
        None => None,
    }
}

/// The view of a yielded `(index, values)` pair.
pub open spec fn pair_view(r: Option<(usize, Vec<u8>)>) -> Option<(usize, Seq<u8>)> {
    match r {
        Some((i, v)) => Some((i, v@)),
        None => None,
    }
}

/// The view of yielded values.
pub open spec fn values_view(r: Option<Vec<u8>>) -> Option<Seq<u8>> {
    match r {
        Some(v) => Some(v@),
        None => None,
    }
}

/// Looks up the scale entries at the indices of a payload.
fn lookup(scale: &[u8], ix: &Vec<usize>) -> (r: Vec<u8>)
    requires
        forall|k: int| 0 <= k < ix@.len() ==> ix@[k] < scale@.len(),
    ensures
        r@ == values_at(scale@, ix@),
{
    let mut r: Vec<u8> = Vec::new();
    let mut k: usize = 0;
    while k < ix.len()
        invariant
            0 <= k <= ix@.len(),
            forall|j: int| 0 <= j < ix@.len() ==> ix@[j] < scale@.len(),
            r@ == values_at(scale@, ix@.subrange(0, k as int)),
        decreases ix@.len() - k,
    {
        r.push(scale[ix[k]]);
        proof {
            assert(ix@.subrange(0, k + 1) == ix@.subrange(0, k as int).push(ix@[k as int]));
        }
        k = k + 1;
    }
    proof {
        assert(ix@.subrange(0, k as int) == ix@);
    }
    r
}

pub struct MatchIndicesInternal<'a, P: Pattern<'a>>(pub(crate) P::Searcher);

impl<'a, P: Pattern<'a>> MatchIndicesInternal<'a, P> {
    /// The searcher driven by this iterator.
    pub closed spec fn searcher(&self) -> P::Searcher {
        self.0
    }

    #[inline]
    fn next(&mut self) -> (r: Option<(usize, Vec<u8>)>)
        requires
            old(self).searcher().inv(),
            old(self).searcher().arity() > 0,
        ensures
            final(self).searcher().inv(),
            final(self).searcher() == old(self).searcher().spec_next_match().1,
            pair_view(r) == indexed(
                old(self).searcher().scale_spec(),
                old(self).searcher().spec_next_match().0,
            ),
    {
        match self.0.next_match() {
            Some(scale_indices) => {
                let values = lookup(self.0.scale(), &scale_indices);
                Some((scale_indices[0], values))
            },
            None => None,
        }
    }

    #[inline]
    fn next_back(&mut self) -> (r: Option<(usize, Vec<u8>)>)
        where P::Searcher: ReverseSearcher<'a>
        requires
            old(self).searcher().inv(),
            old(self).searcher().arity() > 0,
        ensures
            final(self).searcher().inv(),
            final(self).searcher() == old(self).searcher().spec_next_match_back().1,
            pair_view(r) == indexed(
                old(self).searcher().scale_spec(),
                old(self).searcher().spec_next_match_back().0,
            ),
    {
        match self.0.next_match_back() {
            Some(scale_indices) => {
                let values = lookup(self.0.scale(), &scale_indices);
                Some((scale_indices[0], values))
            },
            None => None,
        }
    }
}

pub struct MatchIndices<'a, P: Pattern<'a>>(pub(crate) MatchIndicesInternal<'a, P>);

impl<'a, P: Pattern<'a>> MatchIndices<'a, P> {
    /// The searcher driven by this iterator.
    pub closed spec fn searcher(&self) -> P::Searcher {
        self.0.0
    }

    /// The iterator driving `searcher`.
    pub(crate) fn from_searcher(searcher: P::Searcher) -> (r: Self)
        ensures
            r.searcher() == searcher,
    {
        MatchIndices(MatchIndicesInternal(searcher))
    }

    #[inline]
    pub fn next(&mut self) -> (r: Option<(usize, Vec<u8>)>)
        requires
            old(self).searcher().inv(),
            old(self).searcher().arity() > 0,
        ensures
            final(self).searcher().inv(),
            final(self).searcher() == old(self).searcher().spec_next_match().1,
            pair_view(r) == indexed(
                old(self).searcher().scale_spec(),
                old(self).searcher().spec_next_match().0,
            ),
    {
        self.0.next()
    }

    #[inline]
    pub fn next_back(&mut self) -> (r: Option<(usize, Vec<u8>)>)
        where P::Searcher: DoubleEndedSearcher<'a>
        requires
            old(self).searcher().inv(),
            old(self).searcher().arity() > 0,
        ensures
            final(self).searcher().inv(),
            final(self).searcher() == old(self).searcher().spec_next_match_back().1,
            pair_view(r) == indexed(
                old(self).searcher().scale_spec(),
                old(self).searcher().spec_next_match_back().0,
            ),
    {
        self.0.next_back()
    }
}

pub struct RMatchIndices<'a, P: Pattern<'a>>(pub(crate) MatchIndicesInternal<'a, P>);

impl<'a, P: Pattern<'a>> RMatchIndices<'a, P> {
    /// The searcher driven by this iterator.
    pub closed spec fn searcher(&self) -> P::Searcher {
        self.0.0
    }

    /// The iterator driving `searcher`.
    pub(crate) fn from_searcher(searcher: P::Searcher) -> (r: Self)
        ensures
            r.searcher() == searcher,
    {
        RMatchIndices(MatchIndicesInternal(searcher))
    }

    #[inline]
    pub fn next(&mut self) -> (r: Option<(usize, Vec<u8>)>)
        where P::Searcher: ReverseSearcher<'a>
        requires
            old(self).searcher().inv(),
            old(self).searcher().arity() > 0,
        ensures
            final(self).searcher().inv(),
            final(self).searcher() == old(self).searcher().spec_next_match_back().1,
            pair_view(r) == indexed(
                old(self).searcher().scale_spec(),
                old(self).searcher().spec_next_match_back().0,
            ),
    {
        self.0.next_back()
    }

    #[inline]
    pub fn next_back(&mut self) -> (r: Option<(usize, Vec<u8>)>)
        where P::Searcher: DoubleEndedSearcher<'a>
        requires
            old(self).searcher().inv(),
            old(self).searcher().arity() > 0,
        ensures
            final(self).searcher().inv(),
            final(self).searcher() == old(self).searcher().spec_next_match().1,
            pair_view(r) == indexed(
                old(self).searcher().scale_spec(),
                old(self).searcher().spec_next_match().0,
            ),
    {
        self.0.next()
    }
}

pub struct MatchesInternal<'a, P: Pattern<'a>>(pub(crate) P::Searcher);

impl<'a, P: Pattern<'a>> MatchesInternal<'a, P> {
    /// The searcher driven by this iterator.
    pub closed spec fn searcher(&self) -> P::Searcher {
        self.0
    }

    #[inline]
    fn next(&mut self) -> (r: Option<Vec<u8>>)
        requires
            old(self).searcher().inv(),
        ensures
            final(self).searcher().inv(),
            final(self).searcher() == old(self).searcher().spec_next_match().1,
            values_view(r) == valued(
                old(self).searcher().scale_spec(),
                old(self).searcher().spec_next_match().0,
            ),
    {
        match self.0.next_match() {
            Some(scale_indices) => Some(lookup(self.0.scale(), &scale_indices)),
            None => None,
        }
    }

    #[inline]
    fn next_back(&mut self) -> (r: Option<Vec<u8>>)
        where P::Searcher: ReverseSearcher<'a>
        requires
            old(self).searcher().inv(),
        ensures
            final(self).searcher().inv(),
            final(self).searcher() == old(self).searcher().spec_next_match_back().1,
            values_view(r) == valued(
                old(self).searcher().scale_spec(),
                old(self).searcher().spec_next_match_back().0,
            ),
    {
        match self.0.next_match_back() {
            Some(scale_indices) => Some(lookup(self.0.scale(), &scale_indices)),
            None => None,
        }
    }
}

pub struct Matches<'a, P: Pattern<'a>>(pub(crate) MatchesInternal<'a, P>);

impl<'a, P: Pattern<'a>> Matches<'a, P> {
    /// The searcher driven by this iterator.
    pub closed spec fn searcher(&self) -> P::Searcher {
        self.0.0
    }

    /// The iterator driving `searcher`.
    pub(crate) fn from_searcher(searcher: P::Searcher) -> (r: Self)
        ensures
            r.searcher() == searcher,
    {
        Matches(MatchesInternal(searcher))
    }

    #[inline]
    pub fn next(&mut self) -> (r: Option<Vec<u8>>)
        requires
            old(self).searcher().inv(),
        ensures
            final(self).searcher().inv(),
            final(self).searcher() == old(self).searcher().spec_next_match().1,
            values_view(r) == valued(
                old(self).searcher().scale_spec(),
                old(self).searcher().spec_next_match().0,
            ),
    {
        self.0.next()
    }

    #[inline]
    pub fn next_back(&mut self) -> (r: Option<Vec<u8>>)
        where P::Searcher: DoubleEndedSearcher<'a>
        requires
            old(self).searcher().inv(),
        ensures
            final(self).searcher().inv(),
            final(self).searcher() == old(self).searcher().spec_next_match_back().1,
            values_view(r) == valued(
                old(self).searcher().scale_spec(),
                old(self).searcher().spec_next_match_back().0,
            ),
    {
        self.0.next_back()
    }
}

pub struct RMatches<'a, P: Pattern<'a>>(pub(crate) MatchesInternal<'a, P>);

impl<'a, P: Pattern<'a>> RMatches<'a, P> {
    /// The searcher driven by this iterator.
    pub closed spec fn searcher(&self) -> P::Searcher {
        self.0.0
    }

    /// The iterator driving `searcher`.
    pub(crate) fn from_searcher(searcher: P::Searcher) -> (r: Self)
        ensures
            r.searcher() == searcher,
    {
        RMatches(MatchesInternal(searcher))
    }

    #[inline]
    pub fn next(&mut self) -> (r: Option<Vec<u8>>)
        where P::Searcher: ReverseSearcher<'a>
        requires
            old(self).searcher().inv(),
        ensures
            final(self).searcher().inv(),
            final(self).searcher() == old(self).searcher().spec_next_match_back().1,
            values_view(r) == valued(
                old(self).searcher().scale_spec(),
                old(self).searcher().spec_next_match_back().0,
            ),
    {
        self.0.next_back()
    }

    #[inline]
    pub fn next_back(&mut self) -> (r: Option<Vec<u8>>)
        where P::Searcher: DoubleEndedSearcher<'a>
        requires
            old(self).searcher().inv(),
        ensures
            final(self).searcher().inv(),
            final(self).searcher() == old(self).searcher().spec_next_match().1,
            values_view(r) == valued(
                old(self).searcher().scale_spec(),
                old(self).searcher().spec_next_match().0,
            ),
    {
        self.0.next()
    }
}

} // verus!
