use tepora_core::memory::segmentation::{
    community_labels, event_spans, place_boundaries, refined_spans, refinement_window,
    semantic_boundaries,
};

fn judged(spikes: &[bool]) -> Vec<Option<bool>> {
    spikes.iter().enumerate().map(|(i, s)| if i == 0 { None } else { Some(*s) }).collect()
}

#[test]
fn boundaries_of_empty_and_single() {
    assert!(place_boundaries(&vec![], 2, 10).is_empty());
    assert_eq!(place_boundaries(&vec![None], 1, 10), vec![0]);
}

#[test]
fn max_size_forces_boundaries() {
    let signals = judged(&[false; 20]);
    assert_eq!(place_boundaries(&signals, 1, 5), vec![0, 5, 10, 15]);
}

#[test]
fn spikes_respect_min_size() {
    let mut spikes = [false; 15];
    spikes[2] = true;
    spikes[7] = true;
    let b = place_boundaries(&judged(&spikes), 5, 100);
    assert_eq!(b, vec![0, 7]);
    let unjudged = vec![None; 12];
    assert_eq!(place_boundaries(&unjudged, 1, 3), vec![0]);
}

#[test]
fn spans_keep_long_enough_tail() {
    assert_eq!(event_spans(&vec![0, 4, 9], 12, 2), vec![(0, 4), (4, 9), (9, 12)]);
    assert_eq!(event_spans(&vec![0, 10], 12, 5), vec![(0, 10)]);
    assert!(event_spans(&vec![], 0, 1).is_empty());
}

#[test]
fn semantic_boundaries_after_spikes() {
    assert_eq!(semantic_boundaries(&vec![false, true, false, true], 2), vec![0, 2, 4]);
    assert_eq!(semantic_boundaries(&vec![true, true], 2), vec![0, 2]);
    assert_eq!(semantic_boundaries(&vec![true, false], 2), vec![0]);
    assert_eq!(semantic_boundaries(&vec![], 1), vec![0]);
}

#[test]
fn communities_follow_boundaries() {
    assert_eq!(community_labels(6, &[0, 2, 4]), vec![0, 0, 1, 1, 2, 2]);
    assert_eq!(community_labels(3, &[]), vec![0, 0, 0]);
    assert_eq!(community_labels(0, &[0, 1]), Vec::<usize>::new());
    assert_eq!(community_labels(4, &[3, 1, 9]), vec![0, 1, 1, 2]);
}

#[test]
fn refined_spans_keep_nonempty_ranges() {
    assert_eq!(refined_spans(&[0, 3, 5], 8), vec![(0, 3), (3, 5), (5, 8)]);
    assert_eq!(refined_spans(&[0, 3, 3, 9], 8), vec![(0, 3)]);
    assert_eq!(refined_spans(&[0, 8], 8), vec![(0, 8)]);
    assert_eq!(refined_spans(&[], 8), vec![]);
}

#[test]
fn refinement_window_bounds() {
    assert_eq!(refinement_window(0, 5, Some(10), 2, 2, 12), (3, 7));
    assert_eq!(refinement_window(4, 5, Some(7), 2, 3, 12), (6, 5));
    assert_eq!(refinement_window(0, 10, None, 1, 5, 12), (5, 12));
    assert_eq!(refinement_window(0, 1, Some(1), 5, 4, 12), (5, 0));
}
