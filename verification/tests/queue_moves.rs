use std::collections::VecDeque;

use sonora::queue::{gap_target, in_order, move_item, select_past, select_upcoming, sift, trim};

#[test]
fn spots_a_reordered_queue() {
    let source = [1, 2, 3, 4];

    assert!(in_order(&[1, 2, 3, 4], &source));
    assert!(!in_order(&[1, 3, 2, 4], &source));
    assert!(!in_order(&[1, 2, 3], &source));
    assert!(!in_order(&[1, 2, 3, 4, 5], &source));
}

#[test]
fn moves_items_in_both_directions() {
    let mut items = VecDeque::from([1, 2, 3, 4]);

    assert!(move_item(&mut items, 0, 2));
    assert_eq!(items, [2, 3, 1, 4]);
    assert!(move_item(&mut items, 3, 1));
    assert_eq!(items, [2, 4, 3, 1]);
}

#[test]
fn ignores_invalid_moves() {
    let mut items = VecDeque::from([1, 2, 3]);

    assert!(!move_item(&mut items, 1, 1));
    assert!(!move_item(&mut items, 3, 0));
    assert!(!move_item(&mut items, 0, 3));
    assert_eq!(items, [1, 2, 3]);
}

#[test]
fn selecting_past_rebuilds_the_queue_from_that_track() {
    let mut past = vec![1, 2, 3];
    let mut current = Some(4);
    let mut upcoming = VecDeque::from([5, 6]);

    assert!(select_past(&mut past, &mut current, &mut upcoming, 1));
    assert_eq!(past, [1]);
    assert_eq!(current, Some(2));
    assert_eq!(upcoming, [3, 4, 5, 6]);
}

#[test]
fn selecting_invalid_past_track_keeps_the_queue() {
    let mut past = vec![1, 2];
    let mut current = Some(3);
    let mut upcoming = VecDeque::from([4, 5]);

    assert!(!select_past(&mut past, &mut current, &mut upcoming, 2));
    assert_eq!(past, [1, 2]);
    assert_eq!(current, Some(3));
    assert_eq!(upcoming, [4, 5]);
}

#[test]
fn selecting_upcoming_moves_skipped_tracks_to_the_past() {
    let mut past = vec![1];
    let mut current = Some(2);
    let mut upcoming = VecDeque::from([3, 4, 5]);

    assert!(select_upcoming(&mut past, &mut current, &mut upcoming, 1));
    assert_eq!(past, [1, 2, 3]);
    assert_eq!(current, Some(4));
    assert_eq!(upcoming, [5]);
}

#[test]
fn selecting_invalid_upcoming_track_keeps_the_queue() {
    let mut past = vec![1];
    let mut current = Some(2);
    let mut upcoming = VecDeque::from([3, 4]);

    assert!(!select_upcoming(&mut past, &mut current, &mut upcoming, 2));
    assert_eq!(past, [1]);
    assert_eq!(current, Some(2));
    assert_eq!(upcoming, [3, 4]);
}

#[test]
fn converts_gaps_to_insertion_indices() {
    assert_eq!(gap_target(0, 3, 4), 2);
    assert_eq!(gap_target(0, 4, 4), 3);
    assert_eq!(gap_target(3, 1, 4), 1);
    assert_eq!(gap_target(2, 0, 4), 0);
    assert_eq!(gap_target(1, 1, 4), 1);
    assert_eq!(gap_target(1, 2, 4), 1);
    assert_eq!(gap_target(0, 10, 4), 3);
}

#[test]
fn gap_moves_match_visual_positions() {
    let mut items = VecDeque::from([1, 2, 3, 4]);

    let to = gap_target(0, 3, items.len());
    assert!(move_item(&mut items, 0, to));
    assert_eq!(items, [2, 3, 1, 4]);

    let to = gap_target(3, 0, items.len());
    assert!(move_item(&mut items, 3, to));
    assert_eq!(items, [4, 2, 3, 1]);

    let to = gap_target(1, 2, items.len());
    assert!(!move_item(&mut items, 1, to));
    assert_eq!(items, [4, 2, 3, 1]);
}

#[test]
fn sifting_keeps_only_what_is_wanted() {
    let mut past = vec![1, 2, 3];
    let mut current = Some(4);
    let mut upcoming = VecDeque::from([5, 6]);
    let mut source = vec![1, 2, 3, 4, 5, 6];

    assert!(sift(
        &mut past,
        &mut current,
        &mut upcoming,
        &mut source,
        |item| item % 2 == 0
    ));
    assert_eq!(past, [2]);
    assert_eq!(current, Some(4));
    assert_eq!(upcoming, [6]);
    assert_eq!(source, [2, 4, 6]);
}

#[test]
fn sifting_reports_an_untouched_queue() {
    let mut past = vec![1];
    let mut current = Some(2);
    let mut upcoming = VecDeque::from([3]);
    let mut source = vec![1, 2, 3];

    assert!(!sift(
        &mut past,
        &mut current,
        &mut upcoming,
        &mut source,
        |_| true
    ));
    assert_eq!(past, [1]);
    assert_eq!(current, Some(2));
    assert_eq!(upcoming, [3]);
}

#[test]
fn trimming_drops_the_oldest_history() {
    let mut past = vec![1, 2, 3, 4, 5];

    trim(&mut past, 3);
    assert_eq!(past, [3, 4, 5]);

    trim(&mut past, 3);
    assert_eq!(past, [3, 4, 5]);

    trim(&mut past, 0);
    assert!(past.is_empty());
}

#[test]
fn sifting_the_current_item_away_empties_it() {
    let mut past: Vec<i32> = Vec::new();
    let mut current = Some(3);
    let mut upcoming: VecDeque<i32> = VecDeque::new();
    let mut source = vec![3];

    assert!(sift(&mut past, &mut current, &mut upcoming, &mut source, |item| *item != 3));
    assert_eq!(current, None);
    assert!(source.is_empty());
}

#[test]
fn selecting_past_without_a_current_item_keeps_the_rest() {
    let mut past = vec![1, 2, 3];
    let mut current = None;
    let mut upcoming = VecDeque::from([9]);

    assert!(select_past(&mut past, &mut current, &mut upcoming, 0));
    assert!(past.is_empty());
    assert_eq!(current, Some(1));
    assert_eq!(upcoming, [2, 3, 9]);
}

#[test]
fn selecting_the_first_upcoming_item_skips_nothing() {
    let mut past = vec![1];
    let mut current = None;
    let mut upcoming = VecDeque::from([2, 3]);

    assert!(select_upcoming(&mut past, &mut current, &mut upcoming, 0));
    assert_eq!(past, [1]);
    assert_eq!(current, Some(2));
    assert_eq!(upcoming, [3]);
}
