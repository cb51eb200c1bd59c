use musicode::Pitch;
use musicode::Pitch::{A, B, C, D, E, F, G};
use musicode::Scale;

fn scale_of(intervals: &[u8]) -> Scale {
    let mut scale = Scale::new();
    for &i in intervals {
        scale.insert(i);
    }
    scale
}

#[test]
fn test_pitches() {
    let scale = scale_of(&[0, 2, 4, 5, 7, 9, 11]);
    let pitches = [C(0), D(0), E(0), F(0), G(0), A(0), B(0)];

    let mut pos = 0;
    let mut it = scale.pitches(C(0));

    while let Some(p) = it.next() {
        assert_eq!(p, pitches[pos]);
        pos += 1;
    }
    assert_eq!(pos, pitches.len());
    assert_eq!(scale.pitches(C(0)).count(), pitches.len());
}

#[test]
fn test_rev_pitches() {
    let scale = scale_of(&[0, 2, 4, 5, 7, 9, 11]);
    let pitches: [Pitch; 7] = [B(0), A(0), G(0), F(0), E(0), D(0), C(0)];

    let mut pos = 0;
    let mut it = scale.pitches(C(0));

    while let Some(p) = it.next_back() {
        assert_eq!(p, pitches[pos]);
        pos += 1;
    }
    assert_eq!(pos, pitches.len());
}

#[test]
fn double_ended_matches() {
    let res = [vec![0, 4, 7], vec![5, 9, 0], vec![7, 11, 2]];
    let scale = scale_of(&[0, 2, 4, 5, 7, 9, 11]);
    let mut fwd_vec: Vec<Vec<u8>> = Vec::new();
    let mut fwd = scale.matches(&[0, 4, 7]);
    while let Some(m) = fwd.next() {
        fwd_vec.push(m);
    }
    assert_eq!(fwd_vec, res);

    let mut bwd_vec: Vec<Vec<u8>> = Vec::new();
    let mut bwd = scale.rmatches(&[0, 4, 7]);
    while let Some(m) = bwd.next() {
        bwd_vec.push(m);
    }
    bwd_vec.reverse();
    assert_eq!(bwd_vec, res);
}

#[test]
fn double_ended_match_indices() {
    let res = [(0, vec![0, 4, 7]), (3, vec![5, 9, 0]), (4, vec![7, 11, 2])];
    let scale = scale_of(&[0, 2, 4, 5, 7, 9, 11]);
    let mut fwd_vec: Vec<(usize, Vec<u8>)> = Vec::new();
    let mut fwd = scale.match_indices(&[0, 4, 7]);
    while let Some(m) = fwd.next() {
        fwd_vec.push(m);
    }
    assert_eq!(fwd_vec, res);

    let mut bwd_vec: Vec<(usize, Vec<u8>)> = Vec::new();
    let mut bwd = scale.rmatch_indices(&[0, 4, 7]);
    while let Some(m) = bwd.next() {
        bwd_vec.push(m);
    }
    bwd_vec.reverse();
    assert_eq!(bwd_vec, res);
}
