use std::collections::HashSet;

use sonora::home::{artist_key, mixed_tracks, woven, Credited, GROUP_SIZE, LIMIT};
use sonora::track::{ArtistRef, Track};

fn track(index: usize, artist: usize, playable: bool) -> Credited {
    Credited {
        track: Track {
            id: Some(format!("track-{index}")),
            name: format!("Track {index}"),
            artists: format!("Artist {artist}"),
            album: String::new(),
            album_id: None,
            cover: None,
            duration_ms: 180_000,
            explicit: false,
            playable,
        },
        artist_refs: vec![ArtistRef {
            name: format!("Artist {artist}"),
            id: Some(format!("artist-{artist}")),
        }],
    }
}

#[test]
fn mixed_selection_is_stable_and_has_no_duplicates() {
    let tracks = (0..60)
        .map(|index| track(index, index, true))
        .collect::<Vec<_>>();

    let first = mixed_tracks(&tracks, 42);
    let second = mixed_tracks(&tracks, 42);
    let ids = first
        .iter()
        .filter_map(|track| track.id.as_ref())
        .collect::<HashSet<_>>();

    assert_eq!(first, second);
    assert_eq!(first.len(), LIMIT);
    assert_eq!(ids.len(), LIMIT);
    for index in 0..GROUP_SIZE {
        let expected = format!("track-{index}");
        assert!(first
            .iter()
            .any(|track| track.id.as_deref() == Some(expected.as_str())));
    }
}

#[test]
fn mixed_selection_excludes_unavailable_tracks() {
    let tracks = (0..50)
        .map(|index| track(index, index, index % 2 == 0))
        .collect::<Vec<_>>();

    let selected = mixed_tracks(&tracks, 7);

    assert_eq!(selected.len(), 25);
    assert!(selected.iter().all(|track| track.playable));
}

#[test]
fn mixed_selection_adds_artist_variety() {
    let tracks = (0..64)
        .map(|index| track(index, index.saturating_sub(23), true))
        .collect::<Vec<_>>();

    let selected = mixed_tracks(&tracks, 99);
    let artists = selected
        .iter()
        .map(|track| &track.artists)
        .collect::<HashSet<_>>();

    assert!(artists.len() > GROUP_SIZE);
}

#[test]
fn a_track_without_an_id_is_never_mixed() {
    let mut tracks = (0..5).map(|index| track(index, index, true)).collect::<Vec<_>>();
    tracks[2].track.id = None;
    let selected = mixed_tracks(&tracks, 1);
    assert_eq!(selected.len(), 4);
    assert!(selected.iter().all(|track| track.id.as_deref() != Some("track-2")));
    assert!(mixed_tracks(&Vec::new(), 1).is_empty());
}

#[test]
fn the_artist_is_the_first_credit_by_id_then_by_name_then_the_line() {
    let mut credited = track(1, 4, true);
    assert_eq!(artist_key(&credited), "artist-4");
    credited.artist_refs[0].id = None;
    assert_eq!(artist_key(&credited), "Artist 4");
    credited.artist_refs.clear();
    credited.track.artists = "Someone & Other".to_owned();
    assert_eq!(artist_key(&credited), "Someone & Other");
}

#[test]
fn lanes_are_woven_in_turns() {
    assert_eq!(woven(&vec![vec![1, 2, 3], vec![10], vec![20, 21]]), vec![1, 10, 20, 2, 21, 3]);
    assert_eq!(woven::<u8>(&vec![]), Vec::<u8>::new());
    assert_eq!(woven(&vec![vec![], vec![5]]), vec![5]);
}

#[test]
fn a_short_library_is_mixed_whole_and_once() {
    let tracks = (0..14)
        .map(|index| track(index, index % 3, index % 4 != 1))
        .collect::<Vec<_>>();
    let expected: HashSet<String> = (0..14)
        .filter(|index| index % 4 != 1)
        .map(|index| format!("track-{index}"))
        .collect();

    let mixed = mixed_tracks(&tracks, 3);
    let ids: HashSet<String> = mixed.iter().filter_map(|track| track.id.clone()).collect();

    assert_eq!(mixed.len(), expected.len());
    assert_eq!(ids, expected);
}
