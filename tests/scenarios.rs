use musicode::pattern::{Pattern, ReverseSearcher, SearchStep, Searcher};
use musicode::{Accidental, Chord, IntervalSet, OctaveError, Pitch, Scale};

const MAJOR: [u8; 7] = [0, 2, 4, 5, 7, 9, 11];

fn major_scale() -> Scale {
    let mut scale = Scale::new();
    for &i in MAJOR.iter() {
        scale.insert(i);
    }
    scale
}

#[test]
fn empty_scale_is_done_in_both_directions() {
    let empty: [u8; 0] = [];
    let mut s = 4u8.into_searcher(&empty);
    assert_eq!(s.next(), SearchStep::Done);
    assert_eq!(s.next_back(), SearchStep::Done);
    assert_eq!(s.next(), SearchStep::Done);
    let chord: &[u8] = &[0, 4, 7];
    let mut c = chord.into_searcher(&empty);
    assert_eq!(c.next(), SearchStep::Done);
    assert_eq!(c.next_back(), SearchStep::Done);
}

#[test]
fn interval_match_indices_both_ways() {
    let scale = major_scale();
    let expected = vec![(0, vec![0, 4]), (3, vec![5, 9]), (4, vec![7, 11])];
    let mut fwd = Vec::new();
    let mut it = scale.match_indices(4u8);
    while let Some(m) = it.next() {
        fwd.push(m);
    }
    assert_eq!(fwd, expected);
    let mut bwd = Vec::new();
    let mut it = scale.rmatch_indices(4u8);
    while let Some(m) = it.next() {
        bwd.push(m);
    }
    bwd.reverse();
    assert_eq!(bwd, expected);
}

#[test]
fn minor_third_forward_equals_reverse_backward() {
    let mut fwd = Vec::new();
    let mut s = 3u8.into_searcher(&MAJOR);
    while let Some(m) = s.next_match() {
        fwd.push(m);
    }
    assert_eq!(fwd, vec![vec![1, 3], vec![2, 4], vec![5, 0], vec![6, 1]]);
    let mut bwd = Vec::new();
    let mut s = 3u8.into_searcher(&MAJOR);
    while let Some(m) = s.next_match_back() {
        bwd.push(m);
    }
    bwd.reverse();
    assert_eq!(bwd, fwd);
}

#[test]
fn chord_slice_matches_with_wrap() {
    let chord: &[u8] = &[0, 4, 7];
    let mut s = chord.into_searcher(&MAJOR);
    assert_eq!(s.next_match(), Some(vec![0, 2, 4]));
    assert_eq!(s.next_match(), Some(vec![3, 5, 0]));
    assert_eq!(s.next_match(), Some(vec![4, 6, 1]));
    assert_eq!(s.next_match(), None);
    assert_eq!(s.next(), SearchStep::Done);
}

#[test]
fn chord_entries_are_taken_modulo_octave() {
    let chord: &[u8] = &[12, 16, 19];
    let mut s = chord.into_searcher(&MAJOR);
    assert_eq!(s.next_match(), Some(vec![0, 2, 4]));
}

#[test]
fn insert_example_sequence() {
    let mut set = IntervalSet::new();
    assert_eq!(set.insert(5), (0, true));
    assert_eq!(set.insert(3), (0, true));
    assert_eq!(set.insert(4), (1, true));
    assert_eq!(set.insert(4), (1, false));
    assert_eq!(set.as_slice(), &[3, 4, 5]);
}

#[test]
fn inserts_keep_set_sorted() {
    let mut set = IntervalSet::new();
    for &x in [9u8, 1, 200, 1, 0, 255, 9, 42].iter() {
        set.insert(x);
    }
    assert_eq!(set.as_slice(), &[0, 1, 9, 42, 200, 255]);
    assert_eq!(set.find_or_insert(42), Ok(3));
    assert_eq!(set.find_or_insert(43), Err(4));
    assert_eq!(set.binary_search(&100), Err(5));
}

#[test]
fn tonic_and_leading() {
    let chord: &[u8] = &[0, 4, 7];
    assert!(chord.is_tonic_of(&MAJOR));
    let other: &[u8] = &[2, 5, 9];
    assert!(!other.is_tonic_of(&MAJOR));
    assert!(other.is_contained_in(&MAJOR));
    assert!(!chord.is_leading_of(&MAJOR));
    assert!(12u8.is_leading_of(&MAJOR));
    assert!(!4u8.is_leading_of(&MAJOR));
    assert!(4u8.is_tonic_of(&MAJOR));
    assert!(!6u8.is_contained_in(&[0, 4, 7]));
}

#[test]
fn raw_steps_filtered_equal_match_stream() {
    let mut raw = Vec::new();
    let mut s = 4u8.into_searcher(&MAJOR);
    loop {
        match s.next() {
            SearchStep::Match(a) => raw.push(a),
            SearchStep::Reject(_) => {},
            SearchStep::Done => break,
        }
    }
    let mut matched = Vec::new();
    let mut s = 4u8.into_searcher(&MAJOR);
    while let Some(a) = s.next_match() {
        matched.push(a);
    }
    assert_eq!(raw, matched);

    let chord: &[u8] = &[0, 3, 7];
    let mut raw_back = Vec::new();
    let mut s = chord.into_searcher(&MAJOR);
    loop {
        match s.next_back() {
            SearchStep::Match(a) => raw_back.push(a),
            SearchStep::Reject(_) => {},
            SearchStep::Done => break,
        }
    }
    let mut matched_back = Vec::new();
    let mut s = chord.into_searcher(&MAJOR);
    while let Some(a) = s.next_match_back() {
        matched_back.push(a);
    }
    assert_eq!(raw_back, matched_back);
    assert_eq!(matched_back, vec![vec![5, 0, 2], vec![2, 4, 6], vec![1, 3, 5]]);
}

#[test]
fn next_reject_skips_matches() {
    let chord: &[u8] = &[0, 4, 7];
    let mut s = chord.into_searcher(&MAJOR);
    assert_eq!(s.next_reject(), Some(vec![1, 4]));
    assert_eq!(s.next_reject(), Some(vec![2, 5]));
    assert_eq!(s.next_reject(), Some(vec![5, 1]));
    assert_eq!(s.next_reject_back(), Some(vec![6, 2]));
    assert_eq!(s.next_reject_back(), None);
}

#[test]
fn scale_try_insert_out_of_range() {
    let mut scale = Scale::new();
    assert_eq!(scale.try_insert(7), Ok(1));
    let err: OctaveError = scale.try_insert(12).unwrap_err();
    assert_eq!(err.interval(), 12);
    assert_eq!(err.to_string(), "outside octave range");
    assert_eq!(scale.as_slice(), &[0, 7]);
    assert_eq!(scale.find_or_insert(7), Ok(1));
    assert_eq!(scale.find_or_insert(3), Err(1));
    assert_eq!(scale.len(), 3);
    assert_eq!(OctaveError::new(30).interval(), 30);
}

#[test]
fn chromatic_scale() {
    let scale = Scale::chromatic();
    assert_eq!(scale.len(), 12);
    assert_eq!(scale.as_slice(), &[0, 1, 2, 3, 4, 5, 6, 7, 8, 9, 10, 11]);
}

#[test]
fn chord_facade() {
    let mut chord = Chord::new();
    assert_eq!(chord.as_slice(), &[0]);
    assert_eq!(chord.insert(16), (1, true));
    assert_eq!(chord.insert(7), (1, true));
    assert_eq!(chord.find_or_insert(16), Ok(2));
    assert_eq!(chord.len(), 3);
    let mut m = chord.matches(9u8);
    assert_eq!(m.next(), Some(vec![7, 16]));
    assert_eq!(m.next(), None);
}

#[test]
fn set_removals() {
    let mut set = IntervalSet::from_vec(vec![5, 3, 5, 1, 9, 7]);
    assert_eq!(set.as_slice(), &[1, 3, 5, 7, 9]);
    assert_eq!(set.remove_interval(&5), Some(5));
    assert_eq!(set.remove_interval(&4), None);
    assert_eq!(set.remove(0), 1);
    assert_eq!(set.pop(), Some(9));
    assert_eq!(set.as_slice(), &[3, 7]);
    set.truncate(1);
    assert_eq!(set.as_slice(), &[3]);
    set.clear();
    assert!(set.is_empty());
    assert_eq!(set.pop(), None);
}

#[test]
fn set_retain_and_drain() {
    let mut set = IntervalSet::from_vec(vec![0, 1, 2, 3, 4, 5, 6]);
    set.retain(|x| x % 2 == 0);
    assert_eq!(set.as_slice(), &[0, 2, 4, 6]);
    let drained = set.drain(1, 3);
    assert_eq!(drained, vec![2, 4]);
    assert_eq!(set.as_slice(), &[0, 6]);
    let mut other = IntervalSet::with_capacity(4);
    other.insert(2);
    assert_eq!(other.len(), 1);
}

#[test]
fn pitch_conversions() {
    assert_eq!(Pitch::from_interval(14), Pitch::D(1));
    assert_eq!(Pitch::from_interval(11), Pitch::B(0));
    assert_eq!(Pitch::from_interval(255), Pitch::DE(21));
    assert_eq!(Pitch::B(1).as_interval(), 23);
    assert_eq!(Pitch::C(0).add_interval(4), Some(Pitch::E(0)));
    assert_eq!(Pitch::A(0).add_interval(5), Some(Pitch::D(1)));
    assert_eq!(Pitch::from_interval(250).add_interval(10), None);
    assert_eq!(Pitch::D(1).sub_interval(3), Some(Pitch::B(0)));
    assert_eq!(Pitch::C(0).sub_interval(1), None);
    assert_eq!(Pitch::default(), Pitch::C(0));
}

#[test]
fn pitch_names_and_intervals() {
    assert_eq!(Pitch::CD(0).to_string_with_accidental(Accidental::Flat), "Db");
    assert_eq!(Pitch::CD(3).to_string_with_accidental(Accidental::Sharp), "C#");
    assert_eq!(Pitch::G(2).to_string_with_accidental(Accidental::Flat), "G");
    assert_eq!(Pitch::C(0).interval_between(&Pitch::E(1)), Some(16));
    assert_eq!(Pitch::E(0).interval_between(&Pitch::C(0)), None);
}

#[test]
fn pitch_walks() {
    let mut it = Pitch::AB(0).iter();
    assert_eq!(it.next(), Some(Pitch::AB(0)));
    assert_eq!(it.next(), Some(Pitch::B(0)));
    assert_eq!(it.next(), Some(Pitch::C(1)));
    assert_eq!(it.next_back(), Some(Pitch::CD(1)));
    assert_eq!(it.next_back(), Some(Pitch::C(1)));
    let mut low = Pitch::C(0).iter();
    assert_eq!(low.next_back(), None);
    let mut high = Pitch::B(255).iter();
    assert_eq!(high.next(), None);
}

#[test]
fn pitches_walker() {
    let scale = major_scale();
    let mut p = scale.pitches(Pitch::A(0));
    assert_eq!(p.size_hint(), (7, Some(7)));
    assert_eq!(p.next(), Some(Pitch::A(0)));
    assert_eq!(p.nth(1), Some(Pitch::CD(1)));
    assert_eq!(p.next_back(), Some(Pitch::GA(1)));
    assert_eq!(p.count(), 3);
    assert_eq!(scale.pitches(Pitch::C(0)).last(), Some(Pitch::B(0)));
    let mut q = scale.pitches(Pitch::C(0));
    assert_eq!(q.nth(7), None);
    assert_eq!(q.next(), None);
}

#[test]
fn tonic_and_leading_decide_on_the_first_root() {
    let five: &[u8] = &[5];
    assert!(!five.is_tonic_of(&[0, 7]));
    let seven: &[u8] = &[7];
    assert!(!seven.is_leading_of(&[0, 7]));
    assert!(!seven.is_tonic_of(&[0, 7]));
    let fifth: &[u8] = &[0, 7];
    assert!(fifth.is_tonic_of(&[0, 7]));
    let unison: &[u8] = &[0];
    assert!(unison.is_leading_of(&MAJOR));
    assert!(!(&[0u8, 4, 7]).is_leading_of(&MAJOR));
    assert!((&[0u8, 4, 7]).is_tonic_of(&MAJOR));
    let empty: [u8; 0] = [];
    assert!(!unison.is_tonic_of(&empty));
    assert!(!0u8.is_leading_of(&empty));
}

#[test]
fn pitches_nth_back() {
    let scale = major_scale();
    let mut p = scale.pitches(Pitch::C(0));
    assert_eq!(p.nth_back(1), Some(Pitch::A(0)));
    assert_eq!(p.next_back(), Some(Pitch::G(0)));
    assert_eq!(p.count(), 4);
    let mut q = scale.pitches(Pitch::C(0));
    assert_eq!(q.nth_back(7), None);
    assert_eq!(q.next(), None);
}

#[test]
fn sets_become_scales_and_chords() {
    let set = IntervalSet::from_vec(vec![7, 0, 4]);
    let scale = Scale::from_set(set.clone());
    assert_eq!(scale.as_slice(), &[0, 4, 7]);
    let chord = Chord::from_set(IntervalSet::from_vec(vec![4, 16]));
    assert_eq!(chord.as_slice(), &[4, 16]);
}
