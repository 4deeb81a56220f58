use sonora::remote::{is_remote, shift, PlayState, Remote, Told};

#[test]
fn a_seek_stays_inside_the_track() {
    assert_eq!(shift(10_000, 5_000, true, Some(60_000)), 15_000);
    assert_eq!(shift(58_000, 5_000, true, Some(60_000)), 60_000);
    assert_eq!(shift(3_000, 5_000, false, Some(60_000)), 0);
    assert_eq!(shift(u64::MAX - 1, 5, true, None), u64::MAX);
}

#[test]
fn only_web_covers_are_remote() {
    assert!(is_remote("https://covers.example/a.jpg"));
    assert!(is_remote("http://covers.example/a.jpg"));
    assert!(!is_remote("/home/me/cover.jpg"));
    assert!(!is_remote("file:///home/me/cover.jpg"));
    assert!(!is_remote("http:/"));
}

#[test]
fn the_controls_hear_of_a_change_once_a_second() {
    let mut remote = Remote::new();
    let first = remote.publish(Some("t1".to_owned()), PlayState::Playing, 1_200);
    assert!(first.track_changed);
    assert_eq!(first.told, Some(Told::Playing(1_200)));

    let again = remote.publish(Some("t1".to_owned()), PlayState::Playing, 1_900);
    assert!(!again.track_changed);
    assert_eq!(again.told, None);

    let later = remote.publish(Some("t1".to_owned()), PlayState::Paused, 1_950);
    assert_eq!(later.told, Some(Told::Paused(1_950)));

    let loading = remote.publish(Some("t2".to_owned()), PlayState::Loading, 0);
    assert!(loading.track_changed);
    assert_eq!(loading.told, Some(Told::Playing(0)));

    let failed = remote.publish(None, PlayState::Failed, 0);
    assert_eq!(failed.told, Some(Told::Stopped));
}
