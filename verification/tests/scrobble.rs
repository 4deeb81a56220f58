use sonora::home::Credited;
use sonora::scrobble::{played, Account, ScrobbleState, Scrobbling};
use sonora::track::{ArtistRef, Track};

fn song(id: &str) -> Credited {
    Credited {
        track: Track {
            id: Some(id.to_owned()),
            name: format!("Song {id}"),
            artists: "Band, Guest".to_owned(),
            album: "Record".to_owned(),
            album_id: None,
            cover: None,
            duration_ms: 200_000,
            explicit: false,
            playable: true,
        },
        artist_refs: vec![ArtistRef {
            name: "Band".to_owned(),
            id: None,
        }],
    }
}

fn account(name: &str, linked: bool, enabled: bool) -> Account {
    Account {
        name: name.to_owned(),
        linked,
        enabled,
    }
}

fn three() -> Scrobbling {
    Scrobbling::new(vec![
        ("lastfm".to_owned(), account("me", true, true)),
        ("listenbrainz".to_owned(), account("", false, true)),
        ("libre".to_owned(), account("you", true, false)),
    ])
}

#[test]
fn a_listen_credits_the_first_artist() {
    let listen = played(&song("t1"), 77).unwrap();
    assert_eq!(listen.artist, "Band");
    assert_eq!(listen.title, "Song t1");
    assert_eq!(listen.album, Some("Record".to_owned()));
    assert_eq!(listen.duration_ms, 200_000);
    assert_eq!(listen.at, 77);
}

#[test]
fn without_credits_the_credit_line_stands_and_an_empty_album_is_none() {
    let mut track = song("t1");
    track.artist_refs.clear();
    track.track.album.clear();
    let listen = played(&track, 5).unwrap();
    assert_eq!(listen.artist, "Band, Guest");
    assert_eq!(listen.album, None);
}

#[test]
fn a_track_without_title_or_artist_makes_no_listen() {
    let mut untitled = song("t1");
    untitled.track.name.clear();
    assert!(played(&untitled, 0).is_none());
    let mut nameless = song("t1");
    nameless.artist_refs[0].name.clear();
    assert!(played(&nameless, 0).is_none());
}

#[test]
fn rows_show_their_accounts() {
    let scrobbling = three();
    let rows = scrobbling.rows();
    assert_eq!(rows[0].state, ScrobbleState::On("me".to_owned()));
    assert_eq!(rows[1].state, ScrobbleState::Off);
    assert!(rows[0].live());
    assert!(!rows[1].live());
    assert!(!rows[2].live());
    assert!(rows[2].linked());
    assert!(!rows[2].enabled());
}

#[test]
fn only_live_services_hear_a_play_start() {
    let mut scrobbling = three();
    assert_eq!(scrobbling.begin(Some(&song("t1")), 100), vec![0]);
    assert_eq!(scrobbling.started(), 100);
    assert!(scrobbling.begin(None, 200).is_empty());
}

#[test]
fn a_listen_goes_out_once_when_earned() {
    let mut scrobbling = three();
    scrobbling.begin(Some(&song("t1")), 100);
    assert!(scrobbling.tick(true, false).is_empty());
    assert!(scrobbling.tick(false, true).is_empty());
    assert_eq!(scrobbling.tick(true, true), vec![0]);
    assert!(scrobbling.tick(true, true).is_empty());
}

#[test]
fn a_resumed_track_keeps_its_start_and_what_went_out() {
    let mut scrobbling = three();
    scrobbling.begin(Some(&song("t1")), 100);
    scrobbling.tick(true, true);
    scrobbling.begin(Some(&song("t1")), 400);
    assert_eq!(scrobbling.started(), 100);
    assert_eq!(scrobbling.play().as_ref().unwrap().at, 100);
    assert!(scrobbling.tick(true, true).is_empty());

    scrobbling.begin(Some(&song("t2")), 500);
    assert_eq!(scrobbling.started(), 500);
    assert_eq!(scrobbling.tick(true, true), vec![0]);
}

#[test]
fn an_ended_play_sends_nothing_more() {
    let mut scrobbling = three();
    scrobbling.begin(Some(&song("t1")), 100);
    scrobbling.end();
    assert!(scrobbling.play().is_none());
    assert!(scrobbling.tick(true, true).is_empty());
}

#[test]
fn a_link_runs_fails_or_is_cancelled() {
    let mut scrobbling = three();
    assert_eq!(scrobbling.connect(&"listenbrainz".to_owned()), Some(1));
    assert!(scrobbling.rows()[1].linking());
    assert_eq!(scrobbling.connect(&"nowhere".to_owned()), None);

    scrobbling.rebuild(&vec![
        ("lastfm".to_owned(), account("me", true, false)),
        ("listenbrainz".to_owned(), account("", false, true)),
        ("libre".to_owned(), account("you", true, false)),
    ]);
    assert!(scrobbling.rows()[1].linking());
    assert!(!scrobbling.rows()[0].live());

    scrobbling.link_ended(1, false);
    assert_eq!(
        scrobbling.rows()[1].state,
        ScrobbleState::Failed("settings-scrobble-failed".to_owned())
    );

    scrobbling.connect(&"listenbrainz".to_owned());
    scrobbling.cancel();
    assert_eq!(scrobbling.rows()[1].state, ScrobbleState::Off);
}

#[test]
fn a_finished_link_shows_once_the_account_is_read() {
    let mut scrobbling = three();
    scrobbling.connect(&"listenbrainz".to_owned());
    scrobbling.link_ended(1, true);
    assert_eq!(scrobbling.rows()[1].state, ScrobbleState::Off);
    scrobbling.rebuild(&vec![
        ("lastfm".to_owned(), account("me", true, true)),
        ("listenbrainz".to_owned(), account("brainy", true, true)),
        ("libre".to_owned(), account("you", true, false)),
    ]);
    assert_eq!(scrobbling.rows()[1].state, ScrobbleState::On("brainy".to_owned()));
}

#[test]
fn a_service_with_nothing_stored_reads_as_off() {
    let mut scrobbling = three();
    scrobbling.rebuild(&vec![
        ("libre".to_owned(), account("them", true, true)),
        ("elsewhere".to_owned(), account("x", true, true)),
    ]);
    assert_eq!(scrobbling.rows()[0].state, ScrobbleState::Off);
    assert!(!scrobbling.rows()[0].live());
    assert_eq!(scrobbling.rows()[0].account.name, "");
    assert_eq!(scrobbling.rows()[2].state, ScrobbleState::On("them".to_owned()));
    assert_eq!(scrobbling.rows()[2].account.name, "them");
}
