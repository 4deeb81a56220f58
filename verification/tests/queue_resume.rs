use sonora::queue::{Queue, KEPT_PAST, KEPT_UPCOMING};
use sonora::track::Track;

fn track(id: &str) -> Track {
    Track {
        id: Some(id.to_owned()),
        name: id.to_owned(),
        artists: String::new(),
        album: String::new(),
        album_id: None,
        cover: None,
        duration_ms: 180_000,
        explicit: false,
        playable: true,
    }
}

fn listing(count: usize) -> Vec<Track> {
    (0..count).map(|index| track(&index.to_string())).collect()
}

fn local(name: &str) -> Track {
    Track {
        id: None,
        ..track(name)
    }
}

#[test]
fn a_kept_queue_caps_the_history_and_the_queue() {
    let mut queue = Queue::new(false);
    let current = queue.revive(listing(60), Some(track("now")), listing(300), 0);
    assert_eq!(current.map(|track| track.name), Some("now".to_owned()));
    let kept = queue.kept("spotify");
    assert_eq!(kept.provider, "spotify");
    assert_eq!(kept.current.map(|track| track.name), Some("now".to_owned()));
    assert_eq!(kept.past.len(), KEPT_PAST);
    assert_eq!(kept.past.first().map(|track| track.name.as_str()), Some("40"));
    assert_eq!(kept.upcoming.len(), KEPT_UPCOMING);
    assert_eq!(kept.upcoming.first().map(|track| track.name.as_str()), Some("0"));
    assert_eq!(kept.manual, 0);
}

#[test]
fn a_track_without_an_id_is_never_kept() {
    let mut queue = Queue::new(false);
    queue.revive(
        vec![track("a"), local("b")],
        Some(local("c")),
        vec![local("d"), track("e"), track("f")],
        2,
    );
    let kept = queue.kept("spotify");
    assert_eq!(kept.past.iter().map(|t| t.name.as_str()).collect::<Vec<_>>(), vec!["a"]);
    assert!(kept.current.is_none());
    assert_eq!(kept.upcoming.iter().map(|t| t.name.as_str()).collect::<Vec<_>>(), vec!["e", "f"]);
    assert_eq!(kept.manual, 1);
}

#[test]
fn a_revived_queue_plays_from_where_it_was() {
    let mut queue = Queue::new(false);
    assert!(queue.blank());
    let current = queue.revive(vec![track("a")], Some(track("b")), vec![track("c"), track("d")], 9);
    assert_eq!(current, Some(track("b")));
    assert!(!queue.blank());
    assert_eq!(queue.manual().len(), 2);
    assert_eq!(queue.upcoming().len(), 2);
    assert_eq!(queue.past().len(), 1);
    assert_eq!(queue.len(), 2);
}

#[test]
fn what_a_queue_kept_comes_back_whole() {
    let mut queue = Queue::new(false);
    let mut upcoming = listing(250);
    upcoming.insert(3, local("side"));
    queue.revive(listing(30), Some(local("odd")), upcoming, 7);
    let first = queue.kept("spotify");

    let mut again = Queue::new(true);
    again.revive(
        first.past.clone(),
        first.current.clone(),
        first.upcoming.clone(),
        first.manual,
    );
    let second = again.kept("spotify");
    assert_eq!(second.past, first.past);
    assert_eq!(second.current, first.current);
    assert_eq!(second.upcoming, first.upcoming);
    assert_eq!(second.manual, first.manual);
    assert_eq!(first.manual, 6);
}

#[test]
fn only_a_signed_in_queue_with_something_in_it_is_remembered() {
    let mut queue = Queue::new(false);
    assert!(queue.remembered(&Some("spotify".to_owned())).is_none());
    queue.revive(listing(2), Some(track("now")), listing(3), 1);
    assert!(queue.remembered(&None).is_none());
    let kept = queue.remembered(&Some("local".to_owned())).unwrap();
    assert_eq!(kept.provider, "local");
    assert_eq!(kept.upcoming.len(), 3);
    assert_eq!(kept.manual, 1);
}
