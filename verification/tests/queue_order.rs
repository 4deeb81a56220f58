use std::collections::VecDeque;

use sonora::queue::{restore, scramble, Queue};
use sonora::track::Track;

fn track(id: &str) -> Track {
    Track {
        id: Some(id.to_owned()),
        name: id.to_owned(),
        artists: String::new(),
        album: String::new(),
        album_id: None,
        cover: None,
        duration_ms: 180_000,
        explicit: false,
        playable: true,
    }
}

fn ids(tracks: &VecDeque<Track>) -> Vec<String> {
    tracks.iter().map(|track| track.name.clone()).collect::<Vec<_>>()
}

fn names(tracks: &[Track]) -> Vec<String> {
    tracks.iter().map(|track| track.name.clone()).collect::<Vec<_>>()
}

fn listing(count: usize) -> Vec<Track> {
    (0..count).map(|index| track(&index.to_string())).collect()
}

#[test]
fn scrambling_keeps_every_track() {
    let source = listing(20);
    let mut upcoming = VecDeque::new();

    scramble(&mut upcoming, &source, &None);

    let mut seen = ids(&upcoming);
    let mut expected = ids(&source.iter().cloned().collect());
    seen.sort();
    expected.sort();
    assert_eq!(seen, expected);
}

#[test]
fn restoring_returns_the_source_order() {
    let source = listing(20);
    let mut upcoming: VecDeque<Track> = source.iter().cloned().collect();

    scramble(&mut upcoming, &source, &None);
    restore(&mut upcoming, &source, &None);

    assert_eq!(ids(&upcoming), ids(&source.iter().cloned().collect()));
}

#[test]
fn restoring_puts_unknown_tracks_last() {
    let source = vec![track("a"), track("b"), track("c")];
    let mut upcoming = VecDeque::from(vec![
        track("queued-one"),
        track("c"),
        track("queued-two"),
        track("a"),
    ]);

    restore(&mut upcoming, &source, &None);

    assert_eq!(ids(&upcoming), ["a", "b", "c", "queued-one", "queued-two"]);
}

#[test]
fn restoring_keeps_both_copies_of_a_repeated_track() {
    let source = vec![track("a"), track("b"), track("a")];
    let mut upcoming = VecDeque::from(vec![track("a"), track("a"), track("b")]);

    restore(&mut upcoming, &source, &None);

    assert_eq!(ids(&upcoming), ["a", "b", "a"]);
}

#[test]
fn restoring_continues_after_the_current_track() {
    let source = listing(12);
    let mut upcoming: VecDeque<Track> = source.iter().cloned().collect();

    scramble(&mut upcoming, &source, &Some(source[8].clone()));
    restore(&mut upcoming, &source, &Some(source[8].clone()));

    assert_eq!(ids(&upcoming), ids(&source[9..].iter().cloned().collect()));
}

#[test]
fn scrambling_leaves_out_what_plays() {
    let source = listing(5);
    let mut upcoming = VecDeque::new();

    scramble(&mut upcoming, &source, &Some(source[2].clone()));

    let mut seen = ids(&upcoming);
    seen.sort();
    assert_eq!(seen, ["0", "1", "3", "4"]);
}

#[test]
fn starting_splits_the_list_around_the_index() {
    let mut queue = Queue::new(false);
    let started = queue.start(listing(5), 2);

    assert_eq!(started.map(|track| track.name), Some("2".to_owned()));
    assert_eq!(names(queue.past()), ["0", "1"]);
    assert_eq!(names(&queue.upcoming()), ["3", "4"]);
    assert_eq!(queue.revision(), 1);
    assert!(!queue.reordered());
}

#[test]
fn starting_past_the_end_changes_nothing() {
    let mut queue = Queue::new(false);
    assert!(queue.start(listing(2), 2).is_none());
    assert!(queue.is_empty());
    assert_eq!(queue.revision(), 0);
}

#[test]
fn starting_shuffled_keeps_no_history() {
    let mut queue = Queue::new(true);
    queue.start(listing(6), 3);

    assert!(queue.past().is_empty());
    let mut rest = names(&queue.upcoming());
    rest.sort();
    assert_eq!(rest, ["0", "1", "2", "4", "5"]);
}

#[test]
fn next_moves_the_current_track_to_the_history() {
    let mut queue = Queue::new(false);
    queue.start(listing(3), 0);

    assert_eq!(queue.next().map(|track| track.name), Some("1".to_owned()));
    assert_eq!(names(queue.past()), ["0"]);
    assert_eq!(queue.next().map(|track| track.name), Some("2".to_owned()));
    assert!(queue.next().is_none());
    assert_eq!(names(queue.past()), ["0", "1"]);
}

#[test]
fn hand_queued_tracks_play_before_the_source() {
    let mut queue = Queue::new(false);
    queue.start(listing(3), 0);
    queue.append(track("mine"));
    queue.append(track("also-mine"));

    assert_eq!(names(&queue.upcoming()), ["mine", "also-mine", "1", "2"]);
    assert_eq!(names(&queue.manual()), ["mine", "also-mine"]);
    queue.prepend(track("first"));
    assert_eq!(names(&queue.manual()), ["first", "mine", "also-mine"]);
    queue.append_last(track("last"));
    assert_eq!(names(&queue.upcoming()), ["first", "mine", "also-mine", "1", "2", "last"]);
}

#[test]
fn suggestions_close_the_queue_and_count_down_when_played() {
    let mut queue = Queue::new(false);
    queue.start(listing(2), 0);
    queue.suggest(vec![track("s1"), track("s2")]);

    assert_eq!(names(&queue.similar()), ["s1", "s2"]);
    assert!(!queue.next_is_suggested());
    queue.next();
    assert!(queue.next_is_suggested());
    queue.next();
    assert_eq!(names(&queue.similar()), ["s2"]);
    queue.clear_similar();
    assert!(queue.similar().is_empty());
    assert!(!queue.has_next());
}

#[test]
fn playing_from_the_history_lines_the_rest_up_next() {
    let mut queue = Queue::new(false);
    queue.start(listing(5), 3);

    assert_eq!(queue.play_past(1).map(|track| track.name), Some("1".to_owned()));
    assert_eq!(names(queue.past()), ["0"]);
    assert_eq!(names(&queue.upcoming()), ["2", "3", "4"]);
    assert_eq!(names(&queue.manual()), ["2", "3"]);
    assert!(queue.play_past(5).is_none());
}

#[test]
fn previous_skips_unplayable_tracks() {
    let mut tracks = listing(4);
    tracks[2].playable = false;
    let mut queue = Queue::new(false);
    queue.start(tracks, 3);

    assert_eq!(queue.previous().map(|track| track.name), Some("1".to_owned()));
}

#[test]
fn picking_a_source_track_keeps_the_hand_queued_run() {
    let mut queue = Queue::new(false);
    queue.start(listing(4), 0);
    queue.append(track("mine"));

    assert_eq!(queue.play_upcoming(2).map(|track| track.name), Some("2".to_owned()));
    assert_eq!(names(queue.past()), ["0", "1"]);
    assert_eq!(names(&queue.upcoming()), ["mine", "3"]);
    assert_eq!(names(&queue.manual()), ["mine"]);
}

#[test]
fn moving_into_the_hand_queued_run_joins_it() {
    let mut queue = Queue::new(false);
    queue.start(listing(4), 0);
    queue.append(track("mine"));
    queue.move_upcoming_to_gap(2, 0);

    assert_eq!(names(&queue.upcoming()), ["2", "mine", "1", "3"]);
    assert_eq!(names(&queue.manual()), ["2", "mine"]);
    queue.remove_upcoming(0);
    assert_eq!(names(&queue.manual()), ["mine"]);
}

#[test]
fn removing_tracks_reports_the_current_one() {
    let mut queue = Queue::new(false);
    queue.start(listing(4), 1);

    assert!(queue.remove_tracks(&["1".to_owned(), "3".to_owned()]));
    assert!(queue.current().is_none());
    assert_eq!(names(queue.past()), ["0"]);
    assert_eq!(names(&queue.upcoming()), ["2"]);
    assert!(!queue.remove_tracks(&[]));
}

#[test]
fn purging_drops_the_suggestions_and_what_is_not_kept() {
    let mut queue = Queue::new(false);
    queue.start(vec![track("spotify:a"), track("local:b"), track("spotify:c")], 0);
    queue.suggest(vec![track("spotify:d")]);

    assert!(queue.purge(|track: &Track| !track.id.as_deref().unwrap_or("").starts_with("spotify:")));
    assert!(queue.current().is_none());
    assert_eq!(names(&queue.upcoming()), ["local:b"]);
    assert!(queue.similar().is_empty());
}

#[test]
fn a_rewound_queue_plays_from_the_start() {
    let mut queue = Queue::new(false);
    queue.start(listing(3), 2);
    queue.suggest(vec![track("s")]);

    assert_eq!(queue.rewind().map(|track| track.name), Some("0".to_owned()));
    assert_eq!(names(&queue.upcoming()), ["1", "2"]);
    assert!(queue.similar().is_empty());
}

#[test]
fn shuffle_off_brings_back_the_source_order() {
    let mut queue = Queue::new(false);
    queue.start(listing(8), 2);
    queue.set_shuffle(true);
    let mut mixed = names(&queue.upcoming());
    mixed.sort();
    assert_eq!(mixed, ["0", "1", "3", "4", "5", "6", "7"]);
    queue.set_shuffle(false);
    assert_eq!(names(&queue.upcoming()), ["3", "4", "5", "6", "7"]);
}

#[test]
fn a_moved_queue_is_reordered_and_reset_fixes_it() {
    let mut queue = Queue::new(false);
    queue.start(listing(4), 0);
    queue.move_upcoming(0, 2);
    assert!(queue.reordered());

    assert_eq!(queue.reset().map(|track| track.name), Some("0".to_owned()));
    assert!(!queue.reordered());
}

#[test]
fn the_history_keeps_only_the_newest_tracks() {
    let mut queue = Queue::new(false);
    queue.start(listing(600), 599);
    assert_eq!(queue.past().len(), 500);
    assert_eq!(queue.past()[0].name, "99");
}

#[test]
fn every_id_is_named_once() {
    let mut queue = Queue::new(false);
    queue.start(vec![track("a"), track("b"), track("a")], 1);
    let mut ids = queue.ids();
    ids.sort();
    assert_eq!(ids, ["a", "b"]);
}

#[test]
fn removing_a_suggested_track_takes_it_out_of_the_suggestions() {
    let mut queue = Queue::new(false);
    queue.start(listing(3), 0);
    queue.suggest(vec![track("s1"), track("s2")]);

    assert!(!queue.remove_tracks(&["s1".to_owned(), "2".to_owned()]));
    assert_eq!(names(&queue.upcoming()), ["1"]);
    assert_eq!(names(&queue.similar()), ["s2"]);
    assert!(queue.manual().is_empty());
}

#[test]
fn a_moved_suggestion_joins_the_hand_queued_run_and_the_runs_keep_their_lengths() {
    let mut queue = Queue::new(false);
    queue.start(listing(3), 0);
    queue.append(track("mine"));
    queue.suggest(vec![track("s")]);
    assert_eq!(names(&queue.upcoming()), ["mine", "1", "2"]);
    assert_eq!(names(&queue.similar()), ["s"]);

    queue.move_upcoming(3, 0);
    assert_eq!(names(&queue.upcoming()), ["s", "mine", "1"]);
    assert_eq!(names(&queue.manual()), ["s", "mine"]);
    assert_eq!(names(&queue.similar()), ["2"]);
}

#[test]
fn scrambling_keeps_the_tracks_without_an_id() {
    let local = |name: &str| Track { id: None, ..track(name) };
    let source = vec![local("x"), track("a"), local("y"), track("b")];

    let mut upcoming = VecDeque::new();
    scramble(&mut upcoming, &source, &None);
    let mut seen = ids(&upcoming);
    seen.sort();
    assert_eq!(seen, ["a", "b", "x", "y"]);

    let mut upcoming = VecDeque::new();
    scramble(&mut upcoming, &source, &Some(track("a")));
    let mut seen = ids(&upcoming);
    seen.sort();
    assert_eq!(seen, ["b", "x", "y"]);

    let mut upcoming = VecDeque::new();
    scramble(&mut upcoming, &source, &Some(local("y")));
    let mut seen = ids(&upcoming);
    seen.sort();
    assert_eq!(seen, ["a", "b", "x", "y"]);
}
