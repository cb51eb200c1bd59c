use musicode::pattern::{Pattern, ReverseSearcher, SearchStep, Searcher};

#[derive(Debug, PartialEq, Eq)]
enum Step {
    Matches(Vec<usize>),
    Rejects(Vec<usize>),
    Indices(Vec<usize>),
    Done,
}

use self::Step::{Done, Indices, Matches, Rejects};

impl From<SearchStep> for Step {
    fn from(x: SearchStep) -> Self {
        match x {
            SearchStep::Match(a) => Matches(a),
            SearchStep::Reject(a) => Rejects(a),
            SearchStep::Done => Done,
        }
    }
}

impl From<Option<Vec<usize>>> for Step {
    fn from(x: Option<Vec<usize>>) -> Self {
        match x {
            Some(a) => Indices(a),
            None => Done,
        }
    }
}

#[test]
fn test_simple_interval_iteration() {
    {
        let mut searcher = 4u8.into_searcher(&[0, 2, 4, 5, 7, 9, 11]);
        let arr = [
        Step::from(searcher.next()),
        Step::from(searcher.next()),
        Step::from(searcher.next()),
        Step::from(searcher.next()),
        Step::from(searcher.next()),
        Step::from(searcher.next()),
        Step::from(searcher.next()),
        Step::from(searcher.next()),
        Step::from(searcher.next()),
        Step::from(searcher.next()),
        Step::from(searcher.next()),
        Step::from(searcher.next()),
        Step::from(searcher.next()),
        Step::from(searcher.next()),
        Step::from(searcher.next()),
        Step::from(searcher.next()),
        Step::from(searcher.next()),
        Step::from(searcher.next()),
        Step::from(searcher.next()),
        Step::from(searcher.next()),
        Step::from(searcher.next()),
        Step::from(searcher.next()),
        Step::from(searcher.next()),
        Step::from(searcher.next()),
        Step::from(searcher.next()),
        Step::from(searcher.next()),
        ];
        assert_eq!(
            &arr[..],
            &[
            Rejects(vec![0, 0]),
            Rejects(vec![0, 1]),
            Matches(vec![0, 2]),
            Rejects(vec![1, 1]),
            Rejects(vec![1, 2]),
            Rejects(vec![1, 3]),
            Rejects(vec![1, 4]),
            Rejects(vec![2, 2]),
            Rejects(vec![2, 3]),
            Rejects(vec![2, 4]),
            Rejects(vec![2, 5]),
            Rejects(vec![3, 3]),
            Rejects(vec![3, 4]),
            Matches(vec![3, 5]),
            Rejects(vec![4, 4]),
            Rejects(vec![4, 5]),
            Matches(vec![4, 6]),
            Rejects(vec![5, 5]),
            Rejects(vec![5, 6]),
            Rejects(vec![5, 0]),
            Rejects(vec![5, 1]),
            Rejects(vec![6, 6]),
            Rejects(vec![6, 0]),
            Rejects(vec![6, 1]),
            Rejects(vec![6, 2]),
            Done,
            ],
            "forward iteration for scale"
        );
    }
    {
        let mut searcher = 4u8.into_searcher(&[0, 2, 4, 5, 7, 9, 11]);
        let arr = [
        Step::from(searcher.next_back()),
        Step::from(searcher.next_back()),
        Step::from(searcher.next_back()),
        Step::from(searcher.next_back()),
        Step::from(searcher.next_back()),
        Step::from(searcher.next_back()),
        Step::from(searcher.next_back()),
        Step::from(searcher.next_back()),
        Step::from(searcher.next_back()),
        Step::from(searcher.next_back()),
        Step::from(searcher.next_back()),
        Step::from(searcher.next_back()),
        Step::from(searcher.next_back()),
        Step::from(searcher.next_back()),
        Step::from(searcher.next_back()),
        Step::from(searcher.next_back()),
        Step::from(searcher.next_back()),
        Step::from(searcher.next_back()),
        Step::from(searcher.next_back()),
        Step::from(searcher.next_back()),
        Step::from(searcher.next_back()),
        Step::from(searcher.next_back()),
        Step::from(searcher.next_back()),
        Step::from(searcher.next_back()),
        Step::from(searcher.next_back()),
        Step::from(searcher.next_back()),
        Step::from(searcher.next_back()),
        Step::from(searcher.next_back()),
        Step::from(searcher.next_back()),
        Step::from(searcher.next_back()),
        Step::from(searcher.next_back()),
        Step::from(searcher.next_back()),
        Step::from(searcher.next_back()),
        Step::from(searcher.next_back()),
        Step::from(searcher.next_back()),
        Step::from(searcher.next_back()),
        Step::from(searcher.next_back()),
        Step::from(searcher.next_back()),
        Step::from(searcher.next_back()),
        Step::from(searcher.next_back()),
        Step::from(searcher.next_back()),
        Step::from(searcher.next_back()),
        Step::from(searcher.next_back()),
        ];
        assert_eq!(
            &arr[..],
            &[
            Rejects(vec![6, 6]),
            Rejects(vec![6, 5]),
            Rejects(vec![6, 4]),
            Rejects(vec![6, 3]),
            Rejects(vec![6, 2]),
            Rejects(vec![6, 1]),
            Rejects(vec![5, 5]),
            Rejects(vec![5, 4]),
            Rejects(vec![5, 3]),
            Rejects(vec![5, 2]),
            Rejects(vec![5, 1]),
            Rejects(vec![5, 0]),
            Rejects(vec![4, 4]),
            Rejects(vec![4, 3]),
            Rejects(vec![4, 2]),
            Rejects(vec![4, 1]),
            Rejects(vec![4, 0]),
            Matches(vec![4, 6]),
            Rejects(vec![3, 3]),
            Rejects(vec![3, 2]),
            Rejects(vec![3, 1]),
            Rejects(vec![3, 0]),
            Rejects(vec![3, 6]),
            Matches(vec![3, 5]),
            Rejects(vec![2, 2]),
            Rejects(vec![2, 1]),
            Rejects(vec![2, 0]),
            Rejects(vec![2, 6]),
            Rejects(vec![2, 5]),
            Rejects(vec![2, 4]),
            Rejects(vec![1, 1]),
            Rejects(vec![1, 0]),
            Rejects(vec![1, 6]),
            Rejects(vec![1, 5]),
            Rejects(vec![1, 4]),
            Rejects(vec![1, 3]),
            Rejects(vec![0, 0]),
            Rejects(vec![0, 6]),
            Rejects(vec![0, 5]),
            Rejects(vec![0, 4]),
            Rejects(vec![0, 3]),
            Matches(vec![0, 2]),
            Done,
            ],
            "reverse iteration for scale"
        );
    }
}

#[test]
fn test_simple_interval_search() {
    {
        let mut searcher = 4u8.into_searcher(&[0, 2, 4, 5, 7, 9, 11]);
        let arr = [
        Step::from(searcher.next_match()),
        Step::from(searcher.next_match()),
        Step::from(searcher.next_match()),
        Step::from(searcher.next_match()),
        ];
        assert_eq!(
            &arr[..],
            &[
            Indices(vec![0, 2]),
            Indices(vec![3, 5]),
            Indices(vec![4, 6]),
            Done,
            ],
            "next_match for scale"
        );
    }
    {
        let mut searcher = 4u8.into_searcher(&[0, 2, 4, 5, 7, 9, 11]);
        let arr = [
        Step::from(searcher.next_match_back()),
        Step::from(searcher.next_match_back()),
        Step::from(searcher.next_match_back()),
        Step::from(searcher.next_match_back()),
        ];
        assert_eq!(
            &arr[..],
            &[
            Indices(vec![4, 6]),
            Indices(vec![3, 5]),
            Indices(vec![0, 2]),
            Done,
            ],
            "next_match_back for scale"
        );
    }
    {
        let mut searcher = 12u8.into_searcher(&[0, 2, 4, 5, 7, 9, 11]);
        let arr = [
        Step::from(searcher.next_match_back()),
        Step::from(searcher.next_match_back()),
        Step::from(searcher.next_match_back()),
        Step::from(searcher.next_match_back()),
        Step::from(searcher.next_match_back()),
        Step::from(searcher.next_match_back()),
        Step::from(searcher.next_match_back()),
        Step::from(searcher.next_match_back()),
        ];
        assert_eq!(
            &arr[..],
            &[
            Indices(vec![6, 6]),
            Indices(vec![5, 5]),
            Indices(vec![4, 4]),
            Indices(vec![3, 3]),
            Indices(vec![2, 2]),
            Indices(vec![1, 1]),
            Indices(vec![0, 0]),
            Done,
            ],
            "next_match_back for scale"
        );
    }
    {
        let mut searcher = 4u8.into_searcher(&[0, 2, 4, 5, 7, 9, 11]);
        let arr = [
        Step::from(searcher.next_reject()),
        Step::from(searcher.next_reject()),
        Step::from(searcher.next_reject()),
        Step::from(searcher.next_reject()),
        Step::from(searcher.next_reject()),
        Step::from(searcher.next_reject()),
        Step::from(searcher.next_reject()),
        Step::from(searcher.next_reject()),
        Step::from(searcher.next_reject()),
        Step::from(searcher.next_reject()),
        Step::from(searcher.next_reject()),
        Step::from(searcher.next_reject()),
        Step::from(searcher.next_reject()),
        Step::from(searcher.next_reject()),
        Step::from(searcher.next_reject()),
        Step::from(searcher.next_reject()),
        Step::from(searcher.next_reject()),
        Step::from(searcher.next_reject()),
        Step::from(searcher.next_reject()),
        Step::from(searcher.next_reject()),
        Step::from(searcher.next_reject()),
        Step::from(searcher.next_reject()),
        Step::from(searcher.next_reject()),
        ];
        assert_eq!(
            &arr[..],
            &[
            Indices(vec![0, 0]),
            Indices(vec![0, 1]),
            Indices(vec![1, 1]),
            Indices(vec![1, 2]),
            Indices(vec![1, 3]),
            Indices(vec![1, 4]),
            Indices(vec![2, 2]),
            Indices(vec![2, 3]),
            Indices(vec![2, 4]),
            Indices(vec![2, 5]),
            Indices(vec![3, 3]),
            Indices(vec![3, 4]),
            Indices(vec![4, 4]),
            Indices(vec![4, 5]),
            Indices(vec![5, 5]),
            Indices(vec![5, 6]),
            Indices(vec![5, 0]),
            Indices(vec![5, 1]),
            Indices(vec![6, 6]),
            Indices(vec![6, 0]),
            Indices(vec![6, 1]),
            Indices(vec![6, 2]),
            Done,
            ],
            "next_reject for scale"
        );
    }
    {
        let mut searcher = 4u8.into_searcher(&[0, 2, 4, 5, 7, 9, 11]);
        let arr = [
        Step::from(searcher.next_reject_back()),
        Step::from(searcher.next_reject_back()),
        Step::from(searcher.next_reject_back()),
        Step::from(searcher.next_reject_back()),
        Step::from(searcher.next_reject_back()),
        Step::from(searcher.next_reject_back()),
        Step::from(searcher.next_reject_back()),
        Step::from(searcher.next_reject_back()),
        Step::from(searcher.next_reject_back()),
        Step::from(searcher.next_reject_back()),
        Step::from(searcher.next_reject_back()),
        Step::from(searcher.next_reject_back()),
        Step::from(searcher.next_reject_back()),
        Step::from(searcher.next_reject_back()),
        Step::from(searcher.next_reject_back()),
        Step::from(searcher.next_reject_back()),
        Step::from(searcher.next_reject_back()),
        Step::from(searcher.next_reject_back()),
        Step::from(searcher.next_reject_back()),
        Step::from(searcher.next_reject_back()),
        Step::from(searcher.next_reject_back()),
        Step::from(searcher.next_reject_back()),
        Step::from(searcher.next_reject_back()),
        Step::from(searcher.next_reject_back()),
        Step::from(searcher.next_reject_back()),
        Step::from(searcher.next_reject_back()),
        Step::from(searcher.next_reject_back()),
        Step::from(searcher.next_reject_back()),
        Step::from(searcher.next_reject_back()),
        Step::from(searcher.next_reject_back()),
        Step::from(searcher.next_reject_back()),
        Step::from(searcher.next_reject_back()),
        Step::from(searcher.next_reject_back()),
        Step::from(searcher.next_reject_back()),
        Step::from(searcher.next_reject_back()),
        Step::from(searcher.next_reject_back()),
        Step::from(searcher.next_reject_back()),
        Step::from(searcher.next_reject_back()),
        Step::from(searcher.next_reject_back()),
        Step::from(searcher.next_reject_back()),
        ];
        assert_eq!(
            &arr[..],
            &[
            Indices(vec![6, 6]),
            Indices(vec![6, 5]),
            Indices(vec![6, 4]),
            Indices(vec![6, 3]),
            Indices(vec![6, 2]),
            Indices(vec![6, 1]),
            Indices(vec![5, 5]),
            Indices(vec![5, 4]),
            Indices(vec![5, 3]),
            Indices(vec![5, 2]),
            Indices(vec![5, 1]),
            Indices(vec![5, 0]),
            Indices(vec![4, 4]),
            Indices(vec![4, 3]),
            Indices(vec![4, 2]),
            Indices(vec![4, 1]),
            Indices(vec![4, 0]),
            Indices(vec![3, 3]),
            Indices(vec![3, 2]),
            Indices(vec![3, 1]),
            Indices(vec![3, 0]),
            Indices(vec![3, 6]),
            Indices(vec![2, 2]),
            Indices(vec![2, 1]),
            Indices(vec![2, 0]),
            Indices(vec![2, 6]),
            Indices(vec![2, 5]),
            Indices(vec![2, 4]),
            Indices(vec![1, 1]),
            Indices(vec![1, 0]),
            Indices(vec![1, 6]),
            Indices(vec![1, 5]),
            Indices(vec![1, 4]),
            Indices(vec![1, 3]),
            Indices(vec![0, 0]),
            Indices(vec![0, 6]),
            Indices(vec![0, 5]),
            Indices(vec![0, 4]),
            Indices(vec![0, 3]),
            Done,
            ],
            "next_reject_back for scale"
        );
    }
}

#[test]
fn double_ended_regression() {
    {
        let mut searcher = 4u8.into_searcher(&[0, 2, 4, 5, 7, 9, 11]);
        let arr = [
        Step::from(searcher.next_match()),
        Step::from(searcher.next_match_back()),
        Step::from(searcher.next_match()),
        Step::from(searcher.next_match_back()),
        ];
        assert_eq!(
            &arr[..],
            &[
            Indices(vec![0, 2]),
            Indices(vec![4, 6]),
            Indices(vec![3, 5]),
            Done,
            ],
            "alternating double ended search"
        );
    }
    {
        let mut searcher = 4u8.into_searcher(&[0, 2, 4, 5, 7, 9, 11]);
        let arr = [
        Step::from(searcher.next_match()),
        Step::from(searcher.next_match_back()),
        Step::from(searcher.next_match_back()),
        Step::from(searcher.next_match_back()),
        ];
        assert_eq!(
            &arr[..],
            &[
            Indices(vec![0, 2]),
            Indices(vec![4, 6]),
            Indices(vec![3, 5]),
            Done,
            ],
            "triple double ended search for 4"
        );
    }
    {
        let mut searcher = 3u8.into_searcher(&[0, 2, 4, 5, 7, 9, 11]);
        let arr = [
        Step::from(searcher.next_match()),
        Step::from(searcher.next_match_back()),
        Step::from(searcher.next_match_back()),
        Step::from(searcher.next_match_back()),
        Step::from(searcher.next_match_back()),
        ];
        assert_eq!(
            &arr[..],
            &[
            Indices(vec![1, 3]),
            Indices(vec![6, 1]),
            Indices(vec![5, 0]),
            Indices(vec![2, 4]),
            Done,
            ],
            "triple double ended search for 3"
        );
    }
}

#[test]
fn test_simple_chord_iteration() {
    {
        let mut searcher = (&[0, 4, 7]).into_searcher(&[0, 2, 4, 5, 7, 9, 11]);
        let arr = [
        Step::from(searcher.next()),
        Step::from(searcher.next()),
        Step::from(searcher.next()),
        Step::from(searcher.next()),
        Step::from(searcher.next()),
        Step::from(searcher.next()),
        Step::from(searcher.next()),
        Step::from(searcher.next()),
        ];
        assert_eq!(
            &arr[..],
            &[
            Matches(vec![0, 2, 4]),
            Rejects(vec![1, 4]),
            Rejects(vec![2, 5]),
            Matches(vec![3, 5, 0]),
            Matches(vec![4, 6, 1]),
            Rejects(vec![5, 1]),
            Rejects(vec![6, 2]),
            Done,
            ],
            "forward iteration for scale"
        );
    }
    {
        let mut searcher = (&[0, 4, 7]).into_searcher(&[0, 2, 4, 5, 7, 9, 11]);
        let arr = [
        Step::from(searcher.next_back()),
        Step::from(searcher.next_back()),
        Step::from(searcher.next_back()),
        Step::from(searcher.next_back()),
        Step::from(searcher.next_back()),
        Step::from(searcher.next_back()),
        Step::from(searcher.next_back()),
        Step::from(searcher.next_back()),
        ];
        assert_eq!(
            &arr[..],
            &[
            Rejects(vec![6, 2]),
            Rejects(vec![5, 1]),
            Matches(vec![4, 6, 1]),
            Matches(vec![3, 5, 0]),
            Rejects(vec![2, 5]),
            Rejects(vec![1, 4]),
            Matches(vec![0, 2, 4]),
            Done,
            ],
            "reverse iteration for scale"
        );
    }
}

#[test]
fn test_simple_chord_search() {
    {
        let mut searcher = (&[0, 4, 7]).into_searcher(&[0, 2, 4, 5, 7, 9, 11]);
        let arr = [
        Step::from(searcher.next_match()),
        Step::from(searcher.next_match()),
        Step::from(searcher.next_match()),
        Step::from(searcher.next_match()),
        ];
        assert_eq!(
            &arr[..],
            &[
            Indices(vec![0, 2, 4]),
            Indices(vec![3, 5, 0]),
            Indices(vec![4, 6, 1]),
            Done,
            ],
            "next_match for scale"
        );
    }
    {
        let mut searcher = (&[0, 4, 7]).into_searcher(&[0, 2, 4, 5, 7, 9, 11]);
        let arr = [
        Step::from(searcher.next_match_back()),
        Step::from(searcher.next_match_back()),
        Step::from(searcher.next_match_back()),
        Step::from(searcher.next_match_back()),
        ];
        assert_eq!(
            &arr[..],
            &[
            Indices(vec![4, 6, 1]),
            Indices(vec![3, 5, 0]),
            Indices(vec![0, 2, 4]),
            Done,
            ],
            "next_match_back for scale"
        );
    }
}
