use vstd::prelude::*;

use crate::interval_set::strictly_increasing;
use crate::OCTAVE;

verus! {

/// Something to search for in a scale: an interval, or a chord.
pub trait Pattern<'a>: Sized {
    /// Associated searcher for this pattern
    type Searcher: Searcher<'a>;

    /// `searcher` is the one `into_searcher` builds from `self` and `scale`:
    /// it has not taken a step yet.
    spec fn builds(self, scale: Seq<u8>, searcher: Self::Searcher) -> bool;

    /// Only one searcher is built from a pattern and a scale.
    proof fn lemma_builds_unique(self, scale: Seq<u8>, s1: Self::Searcher, s2: Self::Searcher)
        requires
            self.builds(scale, s1),
            self.builds(scale, s2),
        ensures
            s1 == s2,
    ;

    /// Constructs the associated searcher from
    /// `self` and the `scale` to search in.
    fn into_searcher(self, scale: &'a [u8]) -> (r: Self::Searcher)
        requires
            scale@.len() <= isize::MAX,
        ensures
            self.builds(scale@, r),
            r.inv(),
            r.scale_spec() == scale@,
    ;

    /// Checks whether the pattern matches anywhere in the scale
    #[inline]
    fn is_contained_in(self, scale: &'a [u8]) -> (r: bool)
        requires
            scale@.len() <= isize::MAX,
        ensures
            forall|s: Self::Searcher| #[trigger]
                self.builds(scale@, s) ==> (r <==> s.spec_next_match().0 is Some),
    {
        let mut searcher = self.into_searcher(scale);
        let ghost s0 = searcher;
        proof {
            assert forall|s: Self::Searcher| #[trigger] self.builds(scale@, s) implies s == s0 by {
                self.lemma_builds_unique(scale@, s, s0);
            }
        }
        let found = searcher.next_match();
        found.is_some()
    }

    /// The search of the first root, forward, ends in a match whose first
    /// index is the scale's first index.
    spec fn tonic(self, scale: Seq<u8>) -> bool;

    /// The search of the last root, backward, ends in a match whose first
    /// index is the scale's last index.
    spec fn leading(self, scale: Seq<u8>) -> bool;

    /// Checks whether the pattern matches at the front of the scale
    fn is_tonic_of(self, scale: &'a [u8]) -> (r: bool)
        requires
            scale@.len() <= isize::MAX,
        ensures
            r == self.tonic(scale@),
    ;

    /// Checks whether the pattern matches at the back of the scale
    fn is_leading_of(self, scale: &'a [u8]) -> (r: bool)
        where Self::Searcher: ReverseSearcher<'a>
        requires
            scale@.len() <= isize::MAX,
        ensures
            r == self.leading(scale@),
    ;
}

/// What one search step reports, as sequences of scale indices.
pub enum StepView {
    Match(Seq<usize>),
    Reject(Seq<usize>),
    Done,
}

/// What one search step reports.
#[derive(Clone, Eq, PartialEq, Debug)]
pub enum SearchStep {
    /// Expresses that a match of the interval sequence has been found at
    /// `[scale[a], scale[b], ..]`
    Match(Vec<usize>),
    /// Expresses that `[scale[a], scale[b], .., scale[n]]` has been
    /// rejected as a possible match of the interval sequence. The last value
    /// in the returned vector indicates the scale position at which the pattern
    /// failed to match.
    ///
    /// Note that there might be more than one `Reject` between two `Match`es,
    /// there is no requirement for them to be combined into one.
    Reject(Vec<usize>),
    /// Expresses that every root of the scale has been visited, ending the
    /// iteration.
    Done,
}

impl View for SearchStep {
    type V = StepView;

    open spec fn view(&self) -> StepView {
        match self {
            SearchStep::Match(a) => StepView::Match(a@),
            SearchStep::Reject(a) => StepView::Reject(a@),
            SearchStep::Done => StepView::Done,
        }
    }
}

/// The indices of an optional payload.
pub open spec fn opt_view(o: Option<Vec<usize>>) -> Option<Seq<usize>> {
    match o {
        Some(v) => Some(v@),
        None => None,
    }
}

/// Semitones from the root at index `root` up to position `p`; positions from
/// `s.len()` on stand for the scale again, one octave higher.
pub open spec fn offset(s: Seq<u8>, root: int, p: int) -> int {
    if p < s.len() {
        s[p] as int - s[root] as int
    } else {
        s[p - s.len()] as int + OCTAVE as int - s[root] as int
    }
}

/// The scale index that position `p` stands for.
pub open spec fn slot(s: Seq<u8>, p: int) -> int {
    if p < s.len() {
        p
    } else {
        p - s.len()
    }
}

/// Takes steps with `step` until one is `Done` or of the kind sought (a
/// `Match` when `want_match`, else a `Reject`): the payload found, if any, and
/// the state after that step. `measure` falls with every step that is not `Done`.
pub open spec fn skip_to<T>(
    step: spec_fn(T) -> (StepView, T),
    measure: spec_fn(T) -> nat,
    want_match: bool,
    s: T,
) -> (Option<Seq<usize>>, T)
    decreases measure(s),
{
    let (st, t) = step(s);
    match st {
        StepView::Match(ix) => if want_match {
            (Some(ix), t)
        } else if measure(t) < measure(s) {
            skip_to(step, measure, want_match, t)
        } else {
            (None, t)
        },
        StepView::Reject(ix) => if !want_match {
            (Some(ix), t)
        } else if measure(t) < measure(s) {
            skip_to(step, measure, want_match, t)
        } else {
            (None, t)
        },
        StepView::Done => (None, t),
    }
}

/// `ix` holds `arity` indices, each an index of a scale of length `n`.
pub open spec fn payload_ok(ix: Seq<usize>, arity: nat, n: nat) -> bool {
    &&& ix.len() == arity
    &&& forall|k: int| 0 <= k < ix.len() ==> ix[k] < n
}

/// A resumable search of a pattern in a scale, one root at a time, forward.
///
/// Each implementation is a deterministic state machine: `spec_next` gives
/// the step that `next` reports and the searcher after it.
pub trait Searcher<'a>: Sized {
    /// The scale being searched.
    spec fn scale_spec(&self) -> Seq<u8>;

    /// The cursors are consistent.
    spec fn inv(&self) -> bool;

    /// The next forward step and the searcher after it.
    spec fn spec_next(&self) -> (StepView, Self);

    /// Bounds the number of forward steps before `Done`.
    spec fn forward_measure(&self) -> nat;

    /// Number of scale indices in a `Match` payload.
    spec fn arity(&self) -> nat;

    /// Forward steps keep the cursors consistent, make progress until `Done`,
    /// and `Done` leaves the searcher as it is.
    proof fn lemma_next(&self)
        requires
            self.inv(),
        ensures
            self.spec_next().1.inv(),
            self.spec_next().1.scale_spec() == self.scale_spec(),
            self.spec_next().1.arity() == self.arity(),
            self.spec_next().0 matches StepView::Match(ix) ==> payload_ok(
                ix,
                self.arity(),
                self.scale_spec().len(),
            ),
            self.spec_next().0 is Done ==> self.spec_next().1 == *self,
            !(self.spec_next().0 is Done) ==> self.spec_next().1.forward_measure()
                < self.forward_measure(),
    ;

    /// What `next_match` returns and the searcher after it.
    spec fn spec_next_match(&self) -> (Option<Seq<usize>>, Self);

    /// What `next_reject` returns and the searcher after it.
    spec fn spec_next_reject(&self) -> (Option<Seq<usize>>, Self);

    /// `spec_next_match` skips `Reject` steps and stops at a `Match` or `Done`.
    proof fn lemma_next_match(&self)
        requires
            self.inv(),
        ensures
            ({
                let (st, t) = self.spec_next();
                match st {
                    StepView::Match(ix) => self.spec_next_match() == (Some(ix), t),
                    StepView::Done => self.spec_next_match() == (None::<Seq<usize>>, t),
                    StepView::Reject(_) => self.spec_next_match() == t.spec_next_match(),
                }
            }),
    ;

    /// `spec_next_reject` skips `Match` steps and stops at a `Reject` or `Done`.
    proof fn lemma_next_reject(&self)
        requires
            self.inv(),
        ensures
            ({
                let (st, t) = self.spec_next();
                match st {
                    StepView::Reject(ix) => self.spec_next_reject() == (Some(ix), t),
                    StepView::Done => self.spec_next_reject() == (None::<Seq<usize>>, t),
                    StepView::Match(_) => self.spec_next_reject() == t.spec_next_reject(),
                }
            }),
    ;

    /// The scale being searched.
    fn scale(&self) -> (r: &'a [u8])
        ensures
            r@ == self.scale_spec(),
    ;

    /// Takes one forward step.
    fn next(&mut self) -> (r: SearchStep)
        requires
            old(self).inv(),
        ensures
            r@ == old(self).spec_next().0,
            *final(self) == old(self).spec_next().1,
            final(self).inv(),
    ;

    /// Steps forward past `Reject`s: the next `Match` payload, or `None` once
    /// the search is `Done`.
    fn next_match(&mut self) -> (r: Option<Vec<usize>>)
        requires
            old(self).inv(),
        ensures
            final(self).inv(),
            opt_view(r) == old(self).spec_next_match().0,
            *final(self) == old(self).spec_next_match().1,
            final(self).scale_spec() == old(self).scale_spec(),
            final(self).arity() == old(self).arity(),
            r matches Some(ix) ==> payload_ok(ix@, old(self).arity(), old(self).scale_spec().len()),
    {
        loop
            invariant
                self.inv(),
                self.spec_next_match() == old(self).spec_next_match(),
                self.arity() == old(self).arity(),
                self.scale_spec() == old(self).scale_spec(),
            decreases self.forward_measure(),
        {
            proof {
                self.lemma_next();
                self.lemma_next_match();
            }
            match self.next() {
                SearchStep::Match(a) => return Some(a),
                SearchStep::Done => return None,
                _ => {},
            }
        }
    }

    /// Steps forward past `Match`es: the next `Reject` payload, or `None` once
    /// the search is `Done`.
    fn next_reject(&mut self) -> (r: Option<Vec<usize>>)
        requires
            old(self).inv(),
        ensures
            final(self).inv(),
            opt_view(r) == old(self).spec_next_reject().0,
            *final(self) == old(self).spec_next_reject().1,
            final(self).scale_spec() == old(self).scale_spec(),
            final(self).arity() == old(self).arity(),
    {
        loop
            invariant
                self.inv(),
                self.spec_next_reject() == old(self).spec_next_reject(),
                self.arity() == old(self).arity(),
                self.scale_spec() == old(self).scale_spec(),
            decreases self.forward_measure(),
        {
            proof {
                self.lemma_next();
                self.lemma_next_reject();
            }
            match self.next() {
                SearchStep::Reject(a) => return Some(a),
                SearchStep::Done => return None,
                _ => {},
            }
        }
    }
}

/// A searcher that can also step from the high end of the scale down.
pub trait ReverseSearcher<'a>: Searcher<'a> {
    /// The next backward step and the searcher after it.
    spec fn spec_next_back(&self) -> (StepView, Self);

    /// Bounds the number of backward steps before `Done`.
    spec fn backward_measure(&self) -> nat;

    /// Backward steps keep the cursors consistent, make progress until `Done`,
    /// and `Done` leaves the searcher as it is.
    proof fn lemma_next_back(&self)
        requires
            self.inv(),
        ensures
            self.spec_next_back().1.inv(),
            self.spec_next_back().1.scale_spec() == self.scale_spec(),
            self.spec_next_back().1.arity() == self.arity(),
            self.spec_next_back().0 matches StepView::Match(ix) ==> payload_ok(
                ix,
                self.arity(),
                self.scale_spec().len(),
            ),
            self.spec_next_back().0 is Done ==> self.spec_next_back().1 == *self,
            !(self.spec_next_back().0 is Done) ==> self.spec_next_back().1.backward_measure()
                < self.backward_measure(),
    ;

    /// What `next_match_back` returns and the searcher after it.
    spec fn spec_next_match_back(&self) -> (Option<Seq<usize>>, Self);

    /// What `next_reject_back` returns and the searcher after it.
    spec fn spec_next_reject_back(&self) -> (Option<Seq<usize>>, Self);

    /// `spec_next_match_back` skips `Reject` steps and stops at a `Match` or `Done`.
    proof fn lemma_next_match_back(&self)
        requires
            self.inv(),
        ensures
            ({
                let (st, t) = self.spec_next_back();
                match st {
                    StepView::Match(ix) => self.spec_next_match_back() == (Some(ix), t),
                    StepView::Done => self.spec_next_match_back() == (None::<Seq<usize>>, t),
                    StepView::Reject(_) => self.spec_next_match_back()
                        == t.spec_next_match_back(),
                }
            }),
    ;

    /// `spec_next_reject_back` skips `Match` steps and stops at a `Reject` or `Done`.
    proof fn lemma_next_reject_back(&self)
        requires
            self.inv(),
        ensures
            ({
                let (st, t) = self.spec_next_back();
                match st {
                    StepView::Reject(ix) => self.spec_next_reject_back() == (Some(ix), t),
                    StepView::Done => self.spec_next_reject_back() == (None::<Seq<usize>>, t),
                    StepView::Match(_) => self.spec_next_reject_back()
                        == t.spec_next_reject_back(),
                }
            }),
    ;

    /// Takes one backward step.
    fn next_back(&mut self) -> (r: SearchStep)
        requires
            old(self).inv(),
        ensures
            r@ == old(self).spec_next_back().0,
            *final(self) == old(self).spec_next_back().1,
            final(self).inv(),
    ;

    /// Steps backward past `Reject`s: the next `Match` payload, or `None`
    /// once the search is `Done`.
    fn next_match_back(&mut self) -> (r: Option<Vec<usize>>)
        requires
            old(self).inv(),
        ensures
            final(self).inv(),
            opt_view(r) == old(self).spec_next_match_back().0,
            *final(self) == old(self).spec_next_match_back().1,
            final(self).scale_spec() == old(self).scale_spec(),
            final(self).arity() == old(self).arity(),
            r matches Some(ix) ==> payload_ok(ix@, old(self).arity(), old(self).scale_spec().len()),
    {
        loop
            invariant
                self.inv(),
                self.spec_next_match_back() == old(self).spec_next_match_back(),
                self.arity() == old(self).arity(),
                self.scale_spec() == old(self).scale_spec(),
            decreases self.backward_measure(),
        {
            proof {
                self.lemma_next_back();
                self.lemma_next_match_back();
            }
            match self.next_back() {
                SearchStep::Match(a) => return Some(a),
                SearchStep::Done => return None,
                _ => {},
            }
        }
    }

    /// Steps backward past `Match`es: the next `Reject` payload, or `None`
    /// once the search is `Done`.
    fn next_reject_back(&mut self) -> (r: Option<Vec<usize>>)
        requires
            old(self).inv(),
        ensures
            final(self).inv(),
            opt_view(r) == old(self).spec_next_reject_back().0,
            *final(self) == old(self).spec_next_reject_back().1,
            final(self).scale_spec() == old(self).scale_spec(),
            final(self).arity() == old(self).arity(),
    {
        loop
            invariant
                self.inv(),
                self.spec_next_reject_back() == old(self).spec_next_reject_back(),
                self.arity() == old(self).arity(),
                self.scale_spec() == old(self).scale_spec(),
            decreases self.backward_measure(),
        {
            proof {
                self.lemma_next_back();
                self.lemma_next_reject_back();
            }
            match self.next_back() {
                SearchStep::Reject(a) => return Some(a),
                SearchStep::Done => return None,
                _ => {},
            }
        }
    }
}

/// Forward and backward steps may be interleaved on one searcher: the two
/// root cursors only move towards each other, each `Match`, from either end,
/// finishes exactly one root, and both directions are `Done` exactly when
/// the cursors meet, so no root is matched twice.
pub trait DoubleEndedSearcher<'a>: ReverseSearcher<'a> {
    /// The number of roots between the two root cursors.
    spec fn roots_left(&self) -> nat;

    proof fn lemma_cursors_meet(&self)
        requires
            self.inv(),
        ensures
            self.spec_next().0 is Done <==> self.roots_left() == 0,
            self.spec_next_back().0 is Done <==> self.roots_left() == 0,
            self.spec_next().1.roots_left() <= self.roots_left(),
            self.spec_next_back().1.roots_left() <= self.roots_left(),
            self.spec_next().0 is Match ==> self.spec_next().1.roots_left() + 1
                == self.roots_left(),
            self.spec_next_back().0 is Match ==> self.spec_next_back().1.roots_left() + 1
                == self.roots_left(),
    ;
}

/// One forward step of an interval search over plain values: the step, the new
/// root cursor and the new finger.
pub open spec fn interval_next(s: Seq<u8>, v: int, root: int, root_back: int, finger: int) -> (
    StepView,
    int,
    int,
) {
    if root >= root_back {
        (StepView::Done, root, finger)
    } else {
        let d = offset(s, root, finger);
        let ix = seq![root as usize, slot(s, finger) as usize];
        if d < v {
            (StepView::Reject(ix), root, finger + 1)
        } else if d == v {
            (StepView::Match(ix), root + 1, root + 1)
        } else {
            (StepView::Reject(ix), root + 1, root + 1)
        }
    }
}

/// One backward step of an interval search over plain values: the step, the new
/// back root cursor and the new back finger.
pub open spec fn interval_next_back(
    s: Seq<u8>,
    v: int,
    root: int,
    root_back: int,
    finger_back: int,
) -> (StepView, int, int) {
    if root >= root_back {
        (StepView::Done, root_back, finger_back)
    } else {
        let i = root_back - 1;
        let q = finger_back - 1;
        let d = offset(s, i, q);
        let ix = seq![i as usize, slot(s, q) as usize];
        if d > v {
            (StepView::Reject(ix), root_back, q)
        } else if d == v {
            (StepView::Match(ix), i, i + s.len())
        } else {
            (StepView::Reject(ix), i, i + s.len())
        }
    }
}

/// Searches a scale for one interval above each root.
///
/// Forward, the finger walks up from the root, one position per step, past
/// the end into the next octave, until the offset from the root reaches the
/// interval; backward, the back finger walks down from the root one octave up.
#[derive(Clone, Debug)]
pub struct IntervalSearcher<'a> {
    /// The scale in which we are searching.
    scale: &'a [u8],
    /// `root` is the current index being used as the root of
    /// the interval for the forward search.
    root: usize,
    /// `root_back` is the current index being used as the root of
    /// the interval for the reverse search.
    root_back: usize,
    /// `finger` is the current index of the forward search.
    finger: usize,
    /// `finger_back` is the current index of the reverse search.
    finger_back: usize,
    /// The interval being searched for.
    interval: u8,
}

/// The state of an interval search as plain values.
pub struct IntervalCursors {
    pub scale: Seq<u8>,
    /// The interval sought, below an octave.
    pub interval: u8,
    pub root: nat,
    pub root_back: nat,
    pub finger: nat,
    pub finger_back: nat,
}

/// The cursors of an interval search that has not taken a step yet.
pub open spec fn interval_start(scale: Seq<u8>, interval: u8) -> IntervalCursors {
    IntervalCursors {
        scale,
        interval: interval % OCTAVE,
        root: 0,
        root_back: scale.len(),
        finger: 0,
        finger_back: 2 * scale.len(),
    }
}

/// Consistent cursors: each finger lies within an octave of its root.
pub open spec fn interval_cursors_ok(c: IntervalCursors) -> bool {
    let n = c.scale.len();
    &&& n <= isize::MAX
    &&& c.interval < OCTAVE
    &&& c.root <= c.root_back <= n
    &&& c.root <= c.finger <= c.root + n
    &&& c.root_back <= c.finger_back <= c.root_back + n
}

/// The forward step from cursors `c`.
pub open spec fn interval_step(c: IntervalCursors) -> StepView {
    interval_next(c.scale, c.interval as int, c.root as int, c.root_back as int, c.finger as int).0
}

/// The cursors after the forward step from `c`.
pub open spec fn interval_after(c: IntervalCursors) -> IntervalCursors {
    let (_, root, finger) = interval_next(
        c.scale,
        c.interval as int,
        c.root as int,
        c.root_back as int,
        c.finger as int,
    );
    IntervalCursors { root: root as nat, finger: finger as nat, ..c }
}

/// The backward step from cursors `c`.
pub open spec fn interval_step_back(c: IntervalCursors) -> StepView {
    interval_next_back(
        c.scale,
        c.interval as int,
        c.root as int,
        c.root_back as int,
        c.finger_back as int,
    ).0
}

/// The cursors after the backward step from `c`.
pub open spec fn interval_after_back(c: IntervalCursors) -> IntervalCursors {
    let (_, root_back, finger_back) = interval_next_back(
        c.scale,
        c.interval as int,
        c.root as int,
        c.root_back as int,
        c.finger_back as int,
    );
    IntervalCursors { root_back: root_back as nat, finger_back: finger_back as nat, ..c }
}

impl<'a> View for IntervalSearcher<'a> {
    type V = IntervalCursors;

    closed spec fn view(&self) -> IntervalCursors {
        IntervalCursors {
            scale: self.scale@,
            interval: self.interval,
            root: self.root as nat,
            root_back: self.root_back as nat,
            finger: self.finger as nat,
            finger_back: self.finger_back as nat,
        }
    }
}

impl<'a> IntervalSearcher<'a> {
    /// The searcher that has not taken a step yet.
    pub open spec fn is_fresh(&self, scale: Seq<u8>, interval: u8) -> bool {
        self@ == interval_start(scale, interval)
    }

    /// The searcher's specification, stated over its cursors.
    pub proof fn lemma_model(&self)
        ensures
            self.scale_spec() == self@.scale,
            self.inv() == interval_cursors_ok(self@),
            self.arity() == 2,
            self.inv() ==> self.spec_next().0 == interval_step(self@) && self.spec_next().1@
                == interval_after(self@),
            self.inv() ==> self.spec_next_back().0 == interval_step_back(self@)
                && self.spec_next_back().1@ == interval_after_back(self@),
    {
        if self.inv() {
            self.lemma_next();
            self.lemma_next_back();
        }
    }

    pub fn new(scale: &'a [u8], interval: u8) -> (r: Self)
        requires
            scale@.len() <= isize::MAX,
        ensures
            r.is_fresh(scale@, interval),
            r.inv(),
    {
        let len = scale.len();
        let root_back = len;
        IntervalSearcher {
            scale,
            root: 0,
            root_back,
            finger: 0,
            finger_back: root_back + len,
            interval: interval % OCTAVE,
        }
    }
}

impl<'a> Searcher<'a> for IntervalSearcher<'a> {
    closed spec fn scale_spec(&self) -> Seq<u8> {
        self.scale@
    }

    closed spec fn inv(&self) -> bool {
        let n = self.scale@.len();
        &&& n <= isize::MAX
        &&& self.interval < OCTAVE
        &&& self.root <= self.root_back <= n
        &&& self.root <= self.finger <= self.root + n
        &&& self.root_back <= self.finger_back <= self.root_back + n
    }

    closed spec fn spec_next(&self) -> (StepView, Self) {
        let (st, root, finger) = interval_next(
            self.scale@,
            self.interval as int,
            self.root as int,
            self.root_back as int,
            self.finger as int,
        );
        (st, IntervalSearcher { root: root as usize, finger: finger as usize, ..*self })
    }

    closed spec fn arity(&self) -> nat {
        2
    }

    closed spec fn forward_measure(&self) -> nat {
        ((self.root_back - self.root) * (self.scale@.len() + 1) + (self.root
            + self.scale@.len() - self.finger)) as nat
    }

    proof fn lemma_next(&self) {
        let n = self.scale@.len() as int;
        let k = self.root_back - self.root;
        if self.root < self.root_back {
            assert(k * (n + 1) == (k - 1) * (n + 1) + (n + 1)) by (nonlinear_arith);
        }
        let t = self.spec_next().1;
        assert(t.scale == self.scale);
    }

    closed spec fn spec_next_match(&self) -> (Option<Seq<usize>>, Self) {
        skip_to(|x: Self| x.spec_next(), |x: Self| x.forward_measure(), true, *self)
    }

    closed spec fn spec_next_reject(&self) -> (Option<Seq<usize>>, Self) {
        skip_to(|x: Self| x.spec_next(), |x: Self| x.forward_measure(), false, *self)
    }

    proof fn lemma_next_match(&self) {
        self.lemma_next();
    }

    proof fn lemma_next_reject(&self) {
        self.lemma_next();
    }

    #[inline]
    fn scale(&self) -> (r: &'a [u8]) {
        self.scale
    }

    fn next(&mut self) -> (r: SearchStep) {
        let len = self.scale.len();
        let old_root = self.root;
        if old_root < self.root_back {
            let r = self.scale[old_root];
            let p = self.finger;
            // a finger at or past the end stands for the scale one octave up
            let (old_finger, lift) = if p >= len {
                (p - len, OCTAVE)
            } else {
                (p, 0u8)
            };
            let f = self.scale[old_finger];
            self.finger = p + 1;
            let reached = f as u16 + lift as u16;
            let target = r as u16 + self.interval as u16;
            if reached < target {
                SearchStep::Reject(vec![old_root, old_finger])
            } else if reached == target {
                self.root = old_root + 1;
                self.finger = self.root;
                SearchStep::Match(vec![old_root, old_finger])
            } else {
                self.root = old_root + 1;
                self.finger = self.root;
                SearchStep::Reject(vec![old_root, old_finger])
            }
        } else {
            SearchStep::Done
        }
    }
}

impl<'a> ReverseSearcher<'a> for IntervalSearcher<'a> {
    closed spec fn spec_next_back(&self) -> (StepView, Self) {
        let (st, root_back, finger_back) = interval_next_back(
            self.scale@,
            self.interval as int,
            self.root as int,
            self.root_back as int,
            self.finger_back as int,
        );
        (
            st,
            IntervalSearcher {
                root_back: root_back as usize,
                finger_back: finger_back as usize,
                ..*self
            },
        )
    }

    closed spec fn backward_measure(&self) -> nat {
        ((self.root_back - self.root) * (self.scale@.len() + 1) + (self.finger_back
            - self.root_back)) as nat
    }

    proof fn lemma_next_back(&self) {
        let n = self.scale@.len() as int;
        let k = self.root_back - self.root;
        if self.root < self.root_back {
            assert(k * (n + 1) == (k - 1) * (n + 1) + (n + 1)) by (nonlinear_arith);
        }
        let t = self.spec_next_back().1;
        assert(t.scale@ == self.scale@);
    }

    closed spec fn spec_next_match_back(&self) -> (Option<Seq<usize>>, Self) {
        skip_to(|x: Self| x.spec_next_back(), |x: Self| x.backward_measure(), true, *self)
    }

    closed spec fn spec_next_reject_back(&self) -> (Option<Seq<usize>>, Self) {
        skip_to(|x: Self| x.spec_next_back(), |x: Self| x.backward_measure(), false, *self)
    }

    proof fn lemma_next_match_back(&self) {
        self.lemma_next_back();
    }

    proof fn lemma_next_reject_back(&self) {
        self.lemma_next_back();
    }

    fn next_back(&mut self) -> (r: SearchStep) {
        let len = self.scale.len();
        if self.root < self.root_back {
            let i = self.root_back - 1;
            let r = self.scale[i];
            let q = self.finger_back - 1;
            // a finger at or past the end stands for the scale one octave up
            let (old_finger, lift) = if q >= len {
                (q - len, OCTAVE)
            } else {
                (q, 0u8)
            };
            let f = self.scale[old_finger];
            self.finger_back = q;
            let reached = f as u16 + lift as u16;
            let target = r as u16 + self.interval as u16;
            if reached > target {
                SearchStep::Reject(vec![i, old_finger])
            } else if reached == target {
                self.root_back = i;
                self.finger_back = i + len;
                SearchStep::Match(vec![i, old_finger])
            } else {
                self.root_back = i;
                self.finger_back = i + len;
                SearchStep::Reject(vec![i, old_finger])
            }
        } else {
            SearchStep::Done
        }
    }
}

impl<'a> DoubleEndedSearcher<'a> for IntervalSearcher<'a> {
    closed spec fn roots_left(&self) -> nat {
        (self.root_back - self.root) as nat
    }

    proof fn lemma_cursors_meet(&self) {
    }
}

/// The first position from `from` on whose offset from the root reaches `c`.
/// The scan stops at `root + s.len()`, the root one octave up.
pub open spec fn reach(s: Seq<u8>, root: int, from: int, c: int) -> int
    decreases root + s.len() - from,
{
    if from >= root + s.len() || offset(s, root, from) >= c {
        from
    } else {
        reach(s, root, from + 1, c)
    }
}

/// Looks for the chord entries from the `k`-th on, in order, each from the
/// position after the one before (`from`): the scale indices visited and
/// whether every entry was found. The scan of an entry stops at the first
/// position whose offset reaches it; a position that overshoots it ends the
/// attempt and is reported last.
pub open spec fn chord_scan(s: Seq<u8>, chord: Seq<u8>, root: int, k: int, from: int) -> (
    Seq<usize>,
    bool,
)
    decreases chord.len() - k,
{
    if k >= chord.len() {
        (Seq::empty(), true)
    } else {
        let c = (chord[k] % OCTAVE) as int;
        let p = reach(s, root, from, c);
        if offset(s, root, p) == c {
            let (rest, found) = chord_scan(s, chord, root, k + 1, p + 1);
            (seq![slot(s, p) as usize] + rest, found)
        } else {
            (seq![slot(s, p) as usize], false)
        }
    }
}

/// The scan of one entry ends inside the window of one octave from the root.
pub proof fn lemma_reach(s: Seq<u8>, root: int, from: int, c: int)
    requires
        0 <= root < s.len(),
        root <= from <= root + s.len(),
        c < OCTAVE,
    ensures
        from <= reach(s, root, from, c) <= root + s.len(),
        offset(s, root, reach(s, root, from, c)) >= c,
        forall|p: int| from <= p < reach(s, root, from, c) ==> offset(s, root, p) < c,
    decreases root + s.len() - from,
{
    if from < root + s.len() && offset(s, root, from) < c {
        lemma_reach(s, root, from + 1, c);
    }
}

/// A successful scan reports one index of the scale per chord entry.
pub proof fn lemma_chord_scan(s: Seq<u8>, chord: Seq<u8>, root: int, k: int, from: int)
    requires
        0 <= root < s.len(),
        root <= from <= root + s.len(),
        0 <= k <= chord.len(),
    ensures
        chord_scan(s, chord, root, k, from).1 ==> payload_ok(
            chord_scan(s, chord, root, k, from).0,
            (chord.len() - k) as nat,
            s.len(),
        ),
    decreases chord.len() - k,
{
    if k < chord.len() {
        let c = (chord[k] % OCTAVE) as int;
        let p = reach(s, root, from, c);
        lemma_reach(s, root, from, c);
        if offset(s, root, p) == c {
            lemma_chord_scan(s, chord, root, k + 1, p + 1);
            let rest = chord_scan(s, chord, root, k + 1, p + 1).0;
            assert(forall|j: int| 0 <= j < rest.len() ==> (seq![slot(s, p) as usize] + rest)[j + 1] == rest[j]);
        }
    }
}

/// The step that tries the chord on the root at index `root`.
pub open spec fn chord_attempt(s: Seq<u8>, chord: Seq<u8>, root: int) -> StepView {
    let (ix, found) = chord_scan(s, chord, root, 0, root);
    if found {
        StepView::Match(ix)
    } else {
        StepView::Reject(ix)
    }
}

/// Searches a scale for a chord, one root per step: the chord's entries,
/// taken modulo the octave, are looked for in order above the root.
#[derive(Clone, Debug)]
pub struct ChordSearcher<'a, 'b> {
    /// The scale in which we are searching.
    scale: &'a [u8],
    /// `root` is the current index being used as the root of
    /// the interval for the forward search.
    root: usize,
    /// `root_back` is the current index being used as the root of
    /// the interval for the reverse search.
    root_back: usize,
    /// The chord being searched for.
    chord: &'b [u8],
}

/// The state of a chord search as plain values.
pub struct ChordCursors {
    pub scale: Seq<u8>,
    pub chord: Seq<u8>,
    pub root: nat,
    pub root_back: nat,
}

/// The cursors of a chord search that has not taken a step yet.
pub open spec fn chord_start(scale: Seq<u8>, chord: Seq<u8>) -> ChordCursors {
    ChordCursors { scale, chord, root: 0, root_back: scale.len() }
}

/// The forward step from cursors `c`: the attempt on the lowest root left.
pub open spec fn chord_step(c: ChordCursors) -> StepView {
    if c.root < c.root_back {
        chord_attempt(c.scale, c.chord, c.root as int)
    } else {
        StepView::Done
    }
}

/// The backward step from cursors `c`: the attempt on the highest root left.
pub open spec fn chord_step_back(c: ChordCursors) -> StepView {
    if c.root < c.root_back {
        chord_attempt(c.scale, c.chord, c.root_back - 1)
    } else {
        StepView::Done
    }
}

/// Consistent cursors.
pub open spec fn chord_cursors_ok(c: ChordCursors) -> bool {
    &&& c.scale.len() <= isize::MAX
    &&& c.root <= c.root_back <= c.scale.len()
}

/// The cursors after the forward step from `c`.
pub open spec fn chord_after(c: ChordCursors) -> ChordCursors {
    if c.root < c.root_back {
        ChordCursors { root: c.root + 1, ..c }
    } else {
        c
    }
}

/// The cursors after the backward step from `c`.
pub open spec fn chord_after_back(c: ChordCursors) -> ChordCursors {
    if c.root < c.root_back {
        ChordCursors { root_back: (c.root_back - 1) as nat, ..c }
    } else {
        c
    }
}

impl<'a, 'b> View for ChordSearcher<'a, 'b> {
    type V = ChordCursors;

    closed spec fn view(&self) -> ChordCursors {
        ChordCursors {
            scale: self.scale@,
            chord: self.chord@,
            root: self.root as nat,
            root_back: self.root_back as nat,
        }
    }
}

impl<'a, 'b> ChordSearcher<'a, 'b> {
    /// The searcher that has not taken a step yet.
    pub open spec fn is_fresh(&self, scale: Seq<u8>, chord: Seq<u8>) -> bool {
        self@ == chord_start(scale, chord)
    }

    /// The searcher's specification, stated over its cursors.
    pub proof fn lemma_model(&self)
        ensures
            self.scale_spec() == self@.scale,
            self.inv() == chord_cursors_ok(self@),
            self.arity() == self@.chord.len(),
            self.spec_next().0 == chord_step(self@),
            self.spec_next().1@ == chord_after(self@),
            self.spec_next_back().0 == chord_step_back(self@),
            self.spec_next_back().1@ == chord_after_back(self@),
    {
    }

    pub fn new(scale: &'a [u8], chord: &'b [u8]) -> (r: Self)
        requires
            scale@.len() <= isize::MAX,
        ensures
            r.is_fresh(scale@, chord@),
            r.inv(),
    {
        let len = scale.len();
        ChordSearcher { scale, root: 0, root_back: len, chord }
    }

    /// The scale index that position `p` stands for, and its value lifted by
    /// an octave when `p` is past the end.
    fn lifted(&self, p: usize) -> (r: (usize, u16))
        requires
            self.scale@.len() <= p < 2 * self.scale@.len() || p < self.scale@.len(),
        ensures
            r.0 == slot(self.scale@, p as int),
            r.1 == self.scale@[r.0 as int] as int + if p < self.scale@.len() {
                0
            } else {
                OCTAVE as int
            },
    {
        let len = self.scale.len();
        if p >= len {
            (p - len, self.scale[p - len] as u16 + OCTAVE as u16)
        } else {
            (p, self.scale[p] as u16)
        }
    }

    /// Tries the chord on the root at index `root`.
    fn attempt(&self, root: usize) -> (r: SearchStep)
        requires
            root < self.scale@.len() <= isize::MAX,
        ensures
            r@ == chord_attempt(self.scale@, self.chord@, root as int),
    {
        let ghost s = self.scale@;
        let ghost ch = self.chord@;
        let len = self.scale.len();
        let r = self.scale[root] as u16;
        let mut scale_indices: Vec<usize> = Vec::new();
        let mut finger = root;
        let mut k: usize = 0;
        while k < self.chord.len()
            invariant
                s == self.scale@,
                ch == self.chord@,
                len == s.len(),
                root < len <= isize::MAX,
                r == s[root as int],
                k <= ch.len(),
                root <= finger <= root + len,
                scale_indices@ + chord_scan(s, ch, root as int, k as int, finger as int).0
                    == chord_scan(s, ch, root as int, 0, root as int).0,
                chord_scan(s, ch, root as int, k as int, finger as int).1 == chord_scan(
                    s,
                    ch,
                    root as int,
                    0,
                    root as int,
                ).1,
            decreases ch.len() - k,
        {
            let c = (self.chord[k] % OCTAVE) as u16;
            let ghost from = finger as int;
            // scan for the first position whose offset reaches `c`
            let (mut idx, mut f) = self.lifted(finger);
            while f < r + c
                invariant
                    s == self.scale@,
                    len == s.len(),
                    root < len <= isize::MAX,
                    r == s[root as int],
                    c < OCTAVE,
                    root <= finger <= root + len,
                    idx == slot(s, finger as int),
                    f == s[idx as int] as int + if finger < len {
                        0
                    } else {
                        OCTAVE as int
                    },
                    f - r == offset(s, root as int, finger as int),
                    reach(s, root as int, finger as int, c as int) == reach(
                        s,
                        root as int,
                        from,
                        c as int,
                    ),
                decreases root + len - finger,
            {
                finger = finger + 1;
                let (i2, f2) = self.lifted(finger);
                idx = i2;
                f = f2;
            }
            proof {
                assert(reach(s, root as int, finger as int, c as int) == finger);
            }
            let ghost before = scale_indices@;
            let ghost rest = chord_scan(s, ch, root as int, k + 1, finger + 1);
            scale_indices.push(idx);
            if f == r + c {
                proof {
                    assert(before + chord_scan(s, ch, root as int, k as int, from).0 =~= scale_indices@
                        + rest.0);
                }
                finger = finger + 1;
                k = k + 1;
            } else {
                proof {
                    assert(before + chord_scan(s, ch, root as int, k as int, from).0
                        =~= scale_indices@);
                }
                return SearchStep::Reject(scale_indices);
            }
        }
        proof {
            assert(scale_indices@ + chord_scan(s, ch, root as int, k as int, finger as int).0
                =~= scale_indices@);
        }
        SearchStep::Match(scale_indices)
    }
}

impl<'a, 'b> Searcher<'a> for ChordSearcher<'a, 'b> {
    closed spec fn scale_spec(&self) -> Seq<u8> {
        self.scale@
    }

    closed spec fn inv(&self) -> bool {
        &&& self.scale@.len() <= isize::MAX
        &&& self.root <= self.root_back <= self.scale@.len()
    }

    closed spec fn spec_next(&self) -> (StepView, Self) {
        if self.root < self.root_back {
            (
                chord_attempt(self.scale@, self.chord@, self.root as int),
                ChordSearcher { root: (self.root + 1) as usize, ..*self },
            )
        } else {
            (StepView::Done, *self)
        }
    }

    closed spec fn arity(&self) -> nat {
        self.chord@.len()
    }

    closed spec fn forward_measure(&self) -> nat {
        (self.root_back - self.root) as nat
    }

    proof fn lemma_next(&self) {
        let t = self.spec_next().1;
        assert(t.scale == self.scale);
        if self.root < self.root_back {
            lemma_chord_scan(self.scale@, self.chord@, self.root as int, 0, self.root as int);
        }
    }

    closed spec fn spec_next_match(&self) -> (Option<Seq<usize>>, Self) {
        skip_to(|x: Self| x.spec_next(), |x: Self| x.forward_measure(), true, *self)
    }

    closed spec fn spec_next_reject(&self) -> (Option<Seq<usize>>, Self) {
        skip_to(|x: Self| x.spec_next(), |x: Self| x.forward_measure(), false, *self)
    }

    proof fn lemma_next_match(&self) {
        self.lemma_next();
    }

    proof fn lemma_next_reject(&self) {
        self.lemma_next();
    }

    #[inline]
    fn scale(&self) -> (r: &'a [u8]) {
        self.scale
    }

    fn next(&mut self) -> (r: SearchStep) {
        if self.root < self.root_back {
            let step = self.attempt(self.root);
            self.root = self.root + 1;
            step
        } else {
            SearchStep::Done
        }
    }
}

impl<'a, 'b> ReverseSearcher<'a> for ChordSearcher<'a, 'b> {
    closed spec fn spec_next_back(&self) -> (StepView, Self) {
        if self.root < self.root_back {
            (
                chord_attempt(self.scale@, self.chord@, self.root_back - 1),
                ChordSearcher { root_back: (self.root_back - 1) as usize, ..*self },
            )
        } else {
            (StepView::Done, *self)
        }
    }

    closed spec fn backward_measure(&self) -> nat {
        (self.root_back - self.root) as nat
    }

    proof fn lemma_next_back(&self) {
        assert(self.spec_next_back().1.scale@ == self.scale@);
        if self.root < self.root_back {
            lemma_chord_scan(
                self.scale@,
                self.chord@,
                self.root_back - 1,
                0,
                self.root_back - 1,
            );
        }
    }

    closed spec fn spec_next_match_back(&self) -> (Option<Seq<usize>>, Self) {
        skip_to(|x: Self| x.spec_next_back(), |x: Self| x.backward_measure(), true, *self)
    }

    closed spec fn spec_next_reject_back(&self) -> (Option<Seq<usize>>, Self) {
        skip_to(|x: Self| x.spec_next_back(), |x: Self| x.backward_measure(), false, *self)
    }

    proof fn lemma_next_match_back(&self) {
        self.lemma_next_back();
    }

    proof fn lemma_next_reject_back(&self) {
        self.lemma_next_back();
    }

    fn next_back(&mut self) -> (r: SearchStep) {
        if self.root < self.root_back {
            let step = self.attempt(self.root_back - 1);
            self.root_back = self.root_back - 1;
            step
        } else {
            SearchStep::Done
        }
    }
}

impl<'a, 'b> DoubleEndedSearcher<'a> for ChordSearcher<'a, 'b> {
    closed spec fn roots_left(&self) -> nat {
        (self.root_back - self.root) as nat
    }

    proof fn lemma_cursors_meet(&self) {
    }
}

impl<'a> Pattern<'a> for u8 {
    type Searcher = IntervalSearcher<'a>;

    open spec fn builds(self, scale: Seq<u8>, searcher: IntervalSearcher<'a>) -> bool {
        searcher.is_fresh(scale, self)
    }

    proof fn lemma_builds_unique(self, scale: Seq<u8>, s1: IntervalSearcher<'a>, s2: IntervalSearcher<'a>) {
        assert(s1.scale =~= s2.scale);
    }

    #[inline]
    fn into_searcher(self, scale: &'a [u8]) -> (r: IntervalSearcher<'a>) {
        IntervalSearcher::new(scale, self)
    }

    open spec fn tonic(self, scale: Seq<u8>) -> bool {
        scale.len() > 0 && interval_hit(scale, (self % OCTAVE) as int, 0).len() > 0
    }

    open spec fn leading(self, scale: Seq<u8>) -> bool {
        scale.len() > 0 && interval_hit_back(
            scale,
            (self % OCTAVE) as int,
            scale.len() - 1,
        ).len() > 0
    }

    fn is_tonic_of(self, scale: &'a [u8]) -> (r: bool) {
        let mut s = IntervalSearcher::new(scale, self);
        if scale.len() == 0 {
            return false;
        }
        let ghost sc = scale@;
        let ghost v = (self % OCTAVE) as int;
        while s.root == 0
            invariant
                s.inv(),
                s.scale@ == sc,
                sc == scale@,
                v == (self % OCTAVE) as int,
                sc.len() > 0,
                s.interval == v,
                s.root_back == sc.len(),
                s.root <= 1,
                s.root == 0 ==> reach(sc, 0, s.finger as int, v) == reach(sc, 0, 0, v),
                s.root == 1 ==> interval_hit(sc, v, 0).len() == 0,
            decreases s.forward_measure(),
        {
            let ghost f = s.finger as int;
            proof {
                s.lemma_next();
                if offset(sc, 0, f) < v {
                    assert(reach(sc, 0, f, v) == reach(sc, 0, f + 1, v));
                } else {
                    assert(reach(sc, 0, f, v) == f);
                }
            }
            match s.next() {
                SearchStep::Match(_) => {
                    proof {
                        assert(offset(sc, 0, f) == v);
                        assert(reach(sc, 0, 0, v) == f);
                        assert(interval_hit(sc, v, 0).len() == 1);
                    }
                    return true;
                },
                _ => {},
            }
        }
        false
    }

    fn is_leading_of(self, scale: &'a [u8]) -> (r: bool) {
        let mut s = IntervalSearcher::new(scale, self);
        let len = scale.len();
        if len == 0 {
            return false;
        }
        let ghost sc = scale@;
        let ghost v = (self % OCTAVE) as int;
        let ghost i = len - 1;
        while s.root_back == len
            invariant
                s.inv(),
                s.scale@ == sc,
                sc == scale@,
                v == (self % OCTAVE) as int,
                len == sc.len() > 0,
                i == len - 1,
                s.interval == v,
                s.root == 0,
                len - 1 <= s.root_back <= len,
                s.root_back == len ==> reach_back(sc, i, s.finger_back - 1, v) == reach_back(
                    sc,
                    i,
                    i + len,
                    v,
                ),
                s.root_back < len ==> interval_hit_back(sc, v, i).len() == 0,
            decreases s.backward_measure(),
        {
            let ghost q = s.finger_back - 1;
            proof {
                s.lemma_next_back();
                if offset(sc, i, q) > v {
                    assert(reach_back(sc, i, q, v) == reach_back(sc, i, q - 1, v));
                } else {
                    assert(reach_back(sc, i, q, v) == q);
                }
            }
            match s.next_back() {
                SearchStep::Match(_) => {
                    proof {
                        assert(offset(sc, i, q) == v);
                        assert(reach_back(sc, i, i + len, v) == q);
                        assert(interval_hit_back(sc, v, i).len() == 1);
                    }
                    return true;
                },
                _ => {},
            }
        }
        false
    }
}

impl<'a, 'b> Pattern<'a> for &'b [u8] {
    type Searcher = ChordSearcher<'a, 'b>;

    open spec fn builds(self, scale: Seq<u8>, searcher: ChordSearcher<'a, 'b>) -> bool {
        searcher.is_fresh(scale, self@)
    }

    proof fn lemma_builds_unique(self, scale: Seq<u8>, s1: ChordSearcher<'a, 'b>, s2: ChordSearcher<'a, 'b>) {
        assert(s1.scale =~= s2.scale);
        assert(s1.chord =~= s2.chord);
    }

    #[inline]
    fn into_searcher(self, scale: &'a [u8]) -> (r: ChordSearcher<'a, 'b>) {
        ChordSearcher::new(scale, self)
    }

    open spec fn tonic(self, scale: Seq<u8>) -> bool {
        chord_tonic(scale, self@)
    }

    open spec fn leading(self, scale: Seq<u8>) -> bool {
        chord_leading(scale, self@)
    }

    fn is_tonic_of(self, scale: &'a [u8]) -> (r: bool) {
        chord_is_tonic_of(scale, self)
    }

    fn is_leading_of(self, scale: &'a [u8]) -> (r: bool) {
        chord_is_leading_of(scale, self)
    }
}

impl<'a, 'b, const N: usize> Pattern<'a> for &'b [u8; N] {
    type Searcher = ChordSearcher<'a, 'b>;

    open spec fn builds(self, scale: Seq<u8>, searcher: ChordSearcher<'a, 'b>) -> bool {
        searcher.is_fresh(scale, self@)
    }

    proof fn lemma_builds_unique(self, scale: Seq<u8>, s1: ChordSearcher<'a, 'b>, s2: ChordSearcher<'a, 'b>) {
        assert(s1.scale =~= s2.scale);
        assert(s1.chord =~= s2.chord);
    }

    #[inline]
    fn into_searcher(self, scale: &'a [u8]) -> (r: ChordSearcher<'a, 'b>) {
        ChordSearcher::new(scale, self.as_slice())
    }

    open spec fn tonic(self, scale: Seq<u8>) -> bool {
        chord_tonic(scale, self@)
    }

    open spec fn leading(self, scale: Seq<u8>) -> bool {
        chord_leading(scale, self@)
    }

    fn is_tonic_of(self, scale: &'a [u8]) -> (r: bool) {
        chord_is_tonic_of(scale, self.as_slice())
    }

    fn is_leading_of(self, scale: &'a [u8]) -> (r: bool) {
        chord_is_leading_of(scale, self.as_slice())
    }
}

/// The chord's first forward step, the attempt on the first root, is a match
/// whose first index is the scale's first index.
pub open spec fn chord_tonic(scale: Seq<u8>, chord: Seq<u8>) -> bool {
    &&& scale.len() > 0
    &&& chord_attempt(scale, chord, 0) matches StepView::Match(ix)
    &&& ix.len() > 0
    &&& ix[0] == 0
}

/// The chord's first backward step, the attempt on the last root, is a match
/// whose first index is the scale's last index.
pub open spec fn chord_leading(scale: Seq<u8>, chord: Seq<u8>) -> bool {
    &&& scale.len() > 0
    &&& chord_attempt(scale, chord, scale.len() - 1) matches StepView::Match(ix)
    &&& ix.len() > 0
    &&& ix[0] + 1 == scale.len()
}

fn chord_is_tonic_of(scale: &[u8], chord: &[u8]) -> (r: bool)
    requires
        scale@.len() <= isize::MAX,
    ensures
        r == chord_tonic(scale@, chord@),
{
    let mut s = ChordSearcher::new(scale, chord);
    proof {
        s.lemma_model();
    }
    match s.next() {
        SearchStep::Match(ix) => ix.len() > 0 && ix[0] == 0,
        _ => false,
    }
}

fn chord_is_leading_of(scale: &[u8], chord: &[u8]) -> (r: bool)
    requires
        scale@.len() <= isize::MAX,
    ensures
        r == chord_leading(scale@, chord@),
{
    let mut s = ChordSearcher::new(scale, chord);
    proof {
        s.lemma_model();
    }
    match s.next_back() {
        SearchStep::Match(ix) => ix.len() > 0 && scale.len() > 0 && ix[0] == scale.len() - 1,
        _ => false,
    }
}

/// The `Match` payloads among `steps`, in order.
pub open spec fn match_payloads(steps: Seq<StepView>) -> Seq<Seq<usize>>
    decreases steps.len(),
{
    if steps.len() == 0 {
        Seq::empty()
    } else {
        let rest = match_payloads(steps.drop_first());
        match steps[0] {
            StepView::Match(ix) => seq![ix] + rest,
            _ => rest,
        }
    }
}

/// The steps a searcher takes forward until `Done`, the `Done` left out.
pub open spec fn raw_steps<'a, S: Searcher<'a>>(s: S) -> Seq<StepView>
    decreases s.forward_measure(),
{
    let (st, t) = s.spec_next();
    if st is Done {
        Seq::empty()
    } else if t.forward_measure() < s.forward_measure() {
        seq![st] + raw_steps(t)
    } else {
        seq![st]
    }
}

/// The payloads `next_match` returns, called forward until it returns `None`.
pub open spec fn match_stream<'a, S: Searcher<'a>>(s: S) -> Seq<Seq<usize>>
    decreases s.forward_measure(),
{
    let (m, t) = s.spec_next_match();
    match m {
        Some(ix) => if t.forward_measure() < s.forward_measure() {
            seq![ix] + match_stream(t)
        } else {
            seq![ix]
        },
        None => Seq::empty(),
    }
}

/// `next_match` keeps the cursors consistent and, when it finds a match,
/// makes progress.
pub proof fn lemma_next_match_progress<'a, S: Searcher<'a>>(s: S)
    requires
        s.inv(),
    ensures
        s.spec_next_match().1.inv(),
        s.spec_next_match().0 is Some ==> s.spec_next_match().1.forward_measure()
            < s.forward_measure(),
    decreases s.forward_measure(),
{
    s.lemma_next();
    s.lemma_next_match();
    let (st, t) = s.spec_next();
    if st is Reject {
        lemma_next_match_progress(t);
    }
}

/// Keeping the `Match` payloads of the raw forward steps gives exactly the
/// payloads that repeated calls of `next_match` return.
pub proof fn lemma_match_stream_filters_steps<'a, S: Searcher<'a>>(s: S)
    requires
        s.inv(),
    ensures
        match_payloads(raw_steps(s)) == match_stream(s),
    decreases s.forward_measure(),
{
    s.lemma_next();
    s.lemma_next_match();
    let (st, t) = s.spec_next();
    match st {
        StepView::Done => {},
        StepView::Match(ix) => {
            lemma_match_stream_filters_steps(t);
            assert((seq![st] + raw_steps(t)).drop_first() =~= raw_steps(t));
            assert(match_stream(s) == seq![ix] + match_stream(t));
        },
        StepView::Reject(_) => {
            lemma_match_stream_filters_steps(t);
            lemma_next_match_progress(t);
            assert((seq![st] + raw_steps(t)).drop_first() =~= raw_steps(t));
            assert(match_stream(s) == match_stream(t));
        },
    }
}

/// The steps a searcher takes backward until `Done`, the `Done` left out.
pub open spec fn raw_steps_back<'a, S: ReverseSearcher<'a>>(s: S) -> Seq<StepView>
    decreases s.backward_measure(),
{
    let (st, t) = s.spec_next_back();
    if st is Done {
        Seq::empty()
    } else if t.backward_measure() < s.backward_measure() {
        seq![st] + raw_steps_back(t)
    } else {
        seq![st]
    }
}

/// The payloads `next_match_back` returns, called until it returns `None`.
pub open spec fn match_stream_back<'a, S: ReverseSearcher<'a>>(s: S) -> Seq<Seq<usize>>
    decreases s.backward_measure(),
{
    let (m, t) = s.spec_next_match_back();
    match m {
        Some(ix) => if t.backward_measure() < s.backward_measure() {
            seq![ix] + match_stream_back(t)
        } else {
            seq![ix]
        },
        None => Seq::empty(),
    }
}

/// `next_match_back` keeps the cursors consistent and, when it finds a match,
/// makes progress.
pub proof fn lemma_next_match_back_progress<'a, S: ReverseSearcher<'a>>(s: S)
    requires
        s.inv(),
    ensures
        s.spec_next_match_back().1.inv(),
        s.spec_next_match_back().0 is Some ==> s.spec_next_match_back().1.backward_measure()
            < s.backward_measure(),
    decreases s.backward_measure(),
{
    s.lemma_next_back();
    s.lemma_next_match_back();
    let (st, t) = s.spec_next_back();
    if st is Reject {
        lemma_next_match_back_progress(t);
    }
}

/// Keeping the `Match` payloads of the raw backward steps gives exactly the
/// payloads that repeated calls of `next_match_back` return.
pub proof fn lemma_match_stream_back_filters_steps<'a, S: ReverseSearcher<'a>>(s: S)
    requires
        s.inv(),
    ensures
        match_payloads(raw_steps_back(s)) == match_stream_back(s),
    decreases s.backward_measure(),
{
    s.lemma_next_back();
    s.lemma_next_match_back();
    let (st, t) = s.spec_next_back();
    match st {
        StepView::Done => {},
        StepView::Match(ix) => {
            lemma_match_stream_back_filters_steps(t);
            assert((seq![st] + raw_steps_back(t)).drop_first() =~= raw_steps_back(t));
            assert(match_stream_back(s) == seq![ix] + match_stream_back(t));
        },
        StepView::Reject(_) => {
            lemma_match_stream_back_filters_steps(t);
            lemma_next_match_back_progress(t);
            assert((seq![st] + raw_steps_back(t)).drop_first() =~= raw_steps_back(t));
            assert(match_stream_back(s) == match_stream_back(t));
        },
    }
}

/// The payload of `st` if it is a `Match`, as a list of zero or one payloads.
pub open spec fn hit_list(st: StepView) -> Seq<Seq<usize>> {
    match st {
        StepView::Match(ix) => seq![ix],
        _ => Seq::empty(),
    }
}

proof fn lemma_payloads_cons(st: StepView, rest: Seq<StepView>)
    ensures
        match_payloads(seq![st] + rest) == hit_list(st) + match_payloads(rest),
{
    assert((seq![st] + rest).drop_first() =~= rest);
    if !(st is Match) {
        assert(hit_list(st) + match_payloads(rest) =~= match_payloads(rest));
    }
}

proof fn lemma_reverse_concat(a: Seq<Seq<usize>>, b: Seq<Seq<usize>>)
    ensures
        (a + b).reverse() == b.reverse() + a.reverse(),
{
    assert((a + b).reverse() =~= b.reverse() + a.reverse());
}

proof fn lemma_hit_list_reverse(st: StepView)
    ensures
        hit_list(st).reverse() == hit_list(st),
{
    assert(hit_list(st).reverse() =~= hit_list(st));
}

/// The payloads of the chord's matches on the roots `lo..hi`, lowest root first.
pub open spec fn chord_matches(s: Seq<u8>, chord: Seq<u8>, lo: int, hi: int) -> Seq<Seq<usize>>
    decreases hi - lo,
{
    if lo >= hi {
        Seq::empty()
    } else {
        hit_list(chord_attempt(s, chord, lo)) + chord_matches(s, chord, lo + 1, hi)
    }
}

proof fn lemma_chord_matches_snoc(s: Seq<u8>, chord: Seq<u8>, lo: int, hi: int)
    requires
        lo < hi,
    ensures
        chord_matches(s, chord, lo, hi) == chord_matches(s, chord, lo, hi - 1) + hit_list(
            chord_attempt(s, chord, hi - 1),
        ),
    decreases hi - lo,
{
    let last = hit_list(chord_attempt(s, chord, hi - 1));
    if lo + 1 < hi {
        lemma_chord_matches_snoc(s, chord, lo + 1, hi);
        let first = hit_list(chord_attempt(s, chord, lo));
        let mid = chord_matches(s, chord, lo + 1, hi - 1);
        assert(chord_matches(s, chord, lo, hi) == first + (mid + last));
        assert(chord_matches(s, chord, lo, hi - 1) == first + mid);
        assert(first + (mid + last) =~= (first + mid) + last);
    } else {
        assert(chord_matches(s, chord, lo + 1, hi) == Seq::<Seq<usize>>::empty());
        assert(chord_matches(s, chord, lo, hi - 1) == Seq::<Seq<usize>>::empty());
        assert(chord_matches(s, chord, lo, hi) =~= chord_matches(s, chord, lo, hi - 1) + last);
    }
}

impl<'a, 'b> ChordSearcher<'a, 'b> {
    /// Forward, the chord searcher reports the matches of its remaining roots
    /// from the lowest up.
    proof fn lemma_forward_matches(self)
        requires
            self.inv(),
        ensures
            match_payloads(raw_steps(self)) == chord_matches(
                self.scale@,
                self.chord@,
                self.root as int,
                self.root_back as int,
            ),
        decreases self.root_back - self.root,
    {
        self.lemma_next();
        if self.root < self.root_back {
            let (st, t) = self.spec_next();
            t.lemma_forward_matches();
            lemma_payloads_cons(st, raw_steps(t));
        }
    }

    /// Backward, the chord searcher reports the same matches from the highest
    /// root down.
    proof fn lemma_backward_matches(self)
        requires
            self.inv(),
        ensures
            match_payloads(raw_steps_back(self)) == chord_matches(
                self.scale@,
                self.chord@,
                self.root as int,
                self.root_back as int,
            ).reverse(),
        decreases self.root_back - self.root,
    {
        self.lemma_next_back();
        if self.root < self.root_back {
            let (st, t) = self.spec_next_back();
            t.lemma_backward_matches();
            lemma_payloads_cons(st, raw_steps_back(t));
            let lo = self.root as int;
            let hi = self.root_back as int;
            lemma_chord_matches_snoc(self.scale@, self.chord@, lo, hi);
            lemma_reverse_concat(chord_matches(self.scale@, self.chord@, lo, hi - 1), hit_list(st));
            lemma_hit_list_reverse(st);
        } else {
            assert(chord_matches(self.scale@, self.chord@, self.root as int, self.root_back as int).reverse() =~= Seq::empty());
        }
    }
}

/// Searched forward or backward, a chord is found at the same places, in
/// opposite order: what `next_match_back` returns call after call is what
/// `next_match` returns, reversed.
pub proof fn lemma_chord_directions_agree<'a, 'b>(c: ChordSearcher<'a, 'b>)
    requires
        c.inv(),
    ensures
        match_stream_back(c) == match_stream(c).reverse(),
{
    lemma_match_stream_filters_steps(c);
    lemma_match_stream_back_filters_steps(c);
    c.lemma_forward_matches();
    c.lemma_backward_matches();
}

/// On an empty scale the first step in either direction is `Done`, for any
/// interval.
pub proof fn lemma_empty_scale_interval<'a>(interval: u8, s: IntervalSearcher<'a>)
    requires
        interval.builds(Seq::<u8>::empty(), s),
    ensures
        s.spec_next().0 is Done,
        s.spec_next_back().0 is Done,
{
}

/// On an empty scale the first step in either direction is `Done`, for any
/// chord.
pub proof fn lemma_empty_scale_chord<'a, 'b>(chord: &'b [u8], s: ChordSearcher<'a, 'b>)
    requires
        chord.builds(Seq::<u8>::empty(), s),
    ensures
        s.spec_next().0 is Done,
        s.spec_next_back().0 is Done,
{
}

/// A scale proper: strictly increasing intervals, each within the octave.
pub open spec fn is_scale(s: Seq<u8>) -> bool {
    &&& strictly_increasing(s)
    &&& forall|i: int| 0 <= i < s.len() ==> s[i] < OCTAVE
}

/// The last position from `q` down, above the root at index `i`, whose offset
/// from the root is at most `v`; the root itself when no such position is
/// above it.
pub open spec fn reach_back(s: Seq<u8>, i: int, q: int, v: int) -> int
    decreases q - i,
{
    if q <= i || offset(s, i, q) <= v {
        q
    } else {
        reach_back(s, i, q - 1, v)
    }
}

/// The match of the interval `v` on the root at index `i` that the forward
/// scan finds, as a list of zero or one payloads.
pub open spec fn interval_hit(s: Seq<u8>, v: int, i: int) -> Seq<Seq<usize>> {
    let p = reach(s, i, i, v);
    if offset(s, i, p) == v {
        seq![seq![i as usize, slot(s, p) as usize]]
    } else {
        Seq::empty()
    }
}

/// The match of the interval `v` on the root at index `i` that the backward
/// scan finds, as a list of zero or one payloads.
pub open spec fn interval_hit_back(s: Seq<u8>, v: int, i: int) -> Seq<Seq<usize>> {
    let q = reach_back(s, i, i + s.len(), v);
    if offset(s, i, q) == v {
        seq![seq![i as usize, slot(s, q) as usize]]
    } else {
        Seq::empty()
    }
}

/// The forward matches of the interval on the roots `lo..hi`, lowest first.
pub open spec fn interval_matches(s: Seq<u8>, v: int, lo: int, hi: int) -> Seq<Seq<usize>>
    decreases hi - lo,
{
    if lo >= hi {
        Seq::empty()
    } else {
        interval_hit(s, v, lo) + interval_matches(s, v, lo + 1, hi)
    }
}

/// The backward matches of the interval on the roots `lo..hi`, highest first.
pub open spec fn interval_matches_back(s: Seq<u8>, v: int, lo: int, hi: int) -> Seq<
    Seq<usize>,
>
    decreases hi - lo,
{
    if lo >= hi {
        Seq::empty()
    } else {
        interval_hit_back(s, v, hi - 1) + interval_matches_back(s, v, lo, hi - 1)
    }
}

proof fn lemma_reach_back(s: Seq<u8>, i: int, q: int, v: int)
    requires
        0 <= i < s.len(),
        i <= q <= i + s.len(),
        0 <= v,
    ensures
        i <= reach_back(s, i, q, v) <= q,
        offset(s, i, reach_back(s, i, q, v)) <= v,
        forall|p: int| reach_back(s, i, q, v) < p <= q ==> offset(s, i, p) > v,
    decreases q - i,
{
    if q > i && offset(s, i, q) > v {
        lemma_reach_back(s, i, q - 1, v);
    }
}

/// On a scale proper, offsets grow with the position across one octave.
proof fn lemma_offset_increasing(s: Seq<u8>, i: int, p: int, later: int)
    requires
        is_scale(s),
        0 <= i < s.len(),
        i <= p < later <= i + s.len(),
    ensures
        offset(s, i, p) < offset(s, i, later),
{
    let n = s.len() as int;
    if later < n {
        assert(s[p] < s[later]);
    } else if p >= n {
        assert(s[p - n] < s[later - n]);
    } else {
        assert(s[p] < OCTAVE);
    }
}

/// On a scale proper both scans find the same match on a root, or none.
proof fn lemma_hits_agree(s: Seq<u8>, v: int, i: int)
    requires
        is_scale(s),
        0 <= i < s.len(),
        0 <= v < OCTAVE,
    ensures
        interval_hit(s, v, i) == interval_hit_back(s, v, i),
{
    let n = s.len() as int;
    let p = reach(s, i, i, v);
    let q = reach_back(s, i, i + n, v);
    lemma_reach(s, i, i, v);
    lemma_reach_back(s, i, i + n, v);
    if p < q {
        lemma_offset_increasing(s, i, p, q);
    } else if q < p {
        assert(offset(s, i, q) < v);
        assert(offset(s, i, p) > v);
    }
}

proof fn lemma_interval_matches_snoc(s: Seq<u8>, v: int, lo: int, hi: int)
    requires
        lo < hi,
    ensures
        interval_matches(s, v, lo, hi) == interval_matches(s, v, lo, hi - 1) + interval_hit(
            s,
            v,
            hi - 1,
        ),
    decreases hi - lo,
{
    let last = interval_hit(s, v, hi - 1);
    if lo + 1 < hi {
        lemma_interval_matches_snoc(s, v, lo + 1, hi);
        let first = interval_hit(s, v, lo);
        let mid = interval_matches(s, v, lo + 1, hi - 1);
        assert(interval_matches(s, v, lo, hi) == first + (mid + last));
        assert(interval_matches(s, v, lo, hi - 1) == first + mid);
        assert(first + (mid + last) =~= (first + mid) + last);
    } else {
        assert(interval_matches(s, v, lo + 1, hi) == Seq::<Seq<usize>>::empty());
        assert(interval_matches(s, v, lo, hi - 1) == Seq::<Seq<usize>>::empty());
        assert(interval_matches(s, v, lo, hi) =~= interval_matches(s, v, lo, hi - 1) + last);
    }
}

/// On a scale proper the backward matches are the forward ones reversed.
proof fn lemma_interval_matches_reverse(s: Seq<u8>, v: int, lo: int, hi: int)
    requires
        is_scale(s),
        0 <= lo,
        hi <= s.len(),
        0 <= v < OCTAVE,
    ensures
        interval_matches_back(s, v, lo, hi) == interval_matches(s, v, lo, hi).reverse(),
    decreases hi - lo,
{
    if lo < hi {
        lemma_interval_matches_reverse(s, v, lo, hi - 1);
        lemma_interval_matches_snoc(s, v, lo, hi);
        lemma_hits_agree(s, v, hi - 1);
        let h = interval_hit(s, v, hi - 1);
        lemma_reverse_concat(interval_matches(s, v, lo, hi - 1), h);
        assert(h.reverse() =~= h);
    } else {
        assert(interval_matches(s, v, lo, hi).reverse() =~= Seq::empty());
    }
}

impl<'a> IntervalSearcher<'a> {
    /// Forward, the searcher reports the match of each remaining root, from
    /// the lowest up, provided its finger has not passed the current root's
    /// stop.
    proof fn lemma_forward_matches(self)
        requires
            self.inv(),
            self.root < self.root_back ==> reach(
                self.scale@,
                self.root as int,
                self.finger as int,
                self.interval as int,
            ) == reach(self.scale@, self.root as int, self.root as int, self.interval as int),
        ensures
            match_payloads(raw_steps(self)) == interval_matches(
                self.scale@,
                self.interval as int,
                self.root as int,
                self.root_back as int,
            ),
        decreases self.forward_measure(),
    {
        self.lemma_next();
        if self.root < self.root_back {
            let sc = self.scale@;
            let n = sc.len() as int;
            let v = self.interval as int;
            let i = self.root as int;
            let f = self.finger as int;
            let (st, t) = self.spec_next();
            lemma_payloads_cons(st, raw_steps(t));
            if offset(sc, i, f) < v {
                assert(f < i + n);
                assert(reach(sc, i, f, v) == reach(sc, i, f + 1, v));
                t.lemma_forward_matches();
            } else {
                assert(reach(sc, i, f, v) == f);
                t.lemma_forward_matches();
                assert(hit_list(st) =~= interval_hit(sc, v, i));
            }
        }
    }

    /// Backward, the searcher reports the match of each remaining root, from
    /// the highest down, provided its back finger has not passed the current
    /// root's stop.
    proof fn lemma_backward_matches(self)
        requires
            self.inv(),
            self.root < self.root_back ==> reach_back(
                self.scale@,
                self.root_back - 1,
                self.finger_back - 1,
                self.interval as int,
            ) == reach_back(
                self.scale@,
                self.root_back - 1,
                self.root_back - 1 + self.scale@.len(),
                self.interval as int,
            ),
        ensures
            match_payloads(raw_steps_back(self)) == interval_matches_back(
                self.scale@,
                self.interval as int,
                self.root as int,
                self.root_back as int,
            ),
        decreases self.backward_measure(),
    {
        self.lemma_next_back();
        if self.root < self.root_back {
            let sc = self.scale@;
            let n = sc.len() as int;
            let v = self.interval as int;
            let i = self.root_back - 1;
            let q = self.finger_back - 1;
            let (st, t) = self.spec_next_back();
            lemma_payloads_cons(st, raw_steps_back(t));
            if offset(sc, i, q) > v {
                assert(q > i);
                assert(reach_back(sc, i, q, v) == reach_back(sc, i, q - 1, v));
                t.lemma_backward_matches();
            } else {
                assert(reach_back(sc, i, q, v) == q);
                t.lemma_backward_matches();
                assert(hit_list(st) =~= interval_hit_back(sc, v, i));
            }
        }
    }
}

/// Searched forward or backward on a scale proper, an interval is found at
/// the same places, in opposite order: what `next_match_back` returns call
/// after call is what `next_match` returns, reversed.
pub proof fn lemma_interval_directions_agree<'a>(interval: u8, s: IntervalSearcher<'a>)
    requires
        interval.builds(s.scale_spec(), s),
        is_scale(s.scale_spec()),
    ensures
        match_stream_back(s) == match_stream(s).reverse(),
{
    s.lemma_next();
    lemma_match_stream_filters_steps(s);
    lemma_match_stream_back_filters_steps(s);
    s.lemma_forward_matches();
    s.lemma_backward_matches();
    lemma_interval_matches_reverse(
        s.scale@,
        s.interval as int,
        s.root as int,
        s.root_back as int,
    );
}

} // verus!
