use sonora::feed::Tile;
use sonora::library::{
    detail_step, drop_playlist, drop_track, hide_tracks, hold, insert_playlist, revert, saved,
    set_album_saved, set_saved, toggle, Collection, DetailHappening, DetailStep, LibraryEvent,
    LibraryState,
};
use sonora::track::Track;

type State = LibraryState<Track, Tile, Tile, Tile>;

fn track(id: &str) -> Track {
    Track {
        id: Some(id.to_owned()),
        name: format!("Song {id}"),
        artists: "Band".to_owned(),
        album: "Record".to_owned(),
        album_id: None,
        cover: None,
        duration_ms: 200_000,
        explicit: false,
        playable: true,
    }
}

fn tile(id: &str) -> Tile {
    Tile {
        id: id.to_owned(),
        name: format!("Name {id}"),
    }
}

fn ready(tracks: Vec<Track>, playlists: Vec<Tile>, albums: Vec<Tile>) -> State {
    LibraryState::Ready {
        tracks,
        playlists,
        albums,
        artists: Vec::new(),
        problems: Vec::new(),
    }
}

fn ids(tracks: &[Track]) -> Vec<String> {
    tracks.iter().map(|t| t.id.clone().unwrap_or_default()).collect()
}

#[test]
fn saving_adds_once_and_unsaving_drops_every_copy() {
    let mut items = vec![track("a")];
    hold(&mut items, track("b"), true, false);
    hold(&mut items, track("b"), true, false);
    assert_eq!(ids(&items), vec!["a", "b"]);
    hold(&mut items, track("c"), true, true);
    assert_eq!(ids(&items), vec!["c", "a", "b"]);
    items.push(track("a"));
    hold(&mut items, track("a"), false, false);
    assert_eq!(ids(&items), vec!["c", "b"]);
}

#[test]
fn favorites_kept_apart_take_new_saves_first() {
    let mut favorites = Some(vec![track("a")]);
    let mut state = ready(vec![track("x")], vec![], vec![]);
    set_saved(&mut favorites, &mut state, track("b"), true);
    assert_eq!(ids(favorites.as_ref().unwrap()), vec!["b", "a"]);
    assert!(saved(&favorites, &state, &"b".to_owned()));
    assert!(!saved(&favorites, &state, &"x".to_owned()));
}

#[test]
fn without_favorites_the_tracks_take_new_saves_last() {
    let mut favorites = None;
    let mut state = ready(vec![track("x")], vec![], vec![]);
    set_saved(&mut favorites, &mut state, track("y"), true);
    match &state {
        LibraryState::Ready { tracks, .. } => assert_eq!(ids(tracks), vec!["x", "y"]),
        _ => panic!("the shelf stays ready"),
    }
    assert!(saved(&favorites, &state, &"y".to_owned()));
    set_saved(&mut favorites, &mut state, track("x"), false);
    assert!(!saved(&favorites, &state, &"x".to_owned()));
}

#[test]
fn a_shelf_not_ready_is_left_alone() {
    let mut favorites = None;
    let mut state: State = LibraryState::Loading;
    set_saved(&mut favorites, &mut state, track("y"), true);
    assert!(matches!(state, LibraryState::Loading));
    set_album_saved(&mut state, tile("a"), true);
    assert!(matches!(state, LibraryState::Loading));
}

#[test]
fn albums_are_saved_last_and_once() {
    let mut state = ready(vec![], vec![], vec![tile("a")]);
    set_album_saved(&mut state, tile("b"), true);
    set_album_saved(&mut state, tile("a"), true);
    match &state {
        LibraryState::Ready { albums, .. } => assert_eq!(albums, &vec![tile("a"), tile("b")]),
        _ => panic!("the shelf stays ready"),
    }
    set_album_saved(&mut state, tile("a"), false);
    match &state {
        LibraryState::Ready { albums, .. } => assert_eq!(albums, &vec![tile("b")]),
        _ => panic!("the shelf stays ready"),
    }
}

#[test]
fn a_playlist_put_again_moves_to_the_end() {
    let mut state = ready(vec![], vec![tile("p1"), tile("p2")], vec![]);
    let renamed = Tile {
        id: "p1".to_owned(),
        name: "Renamed".to_owned(),
    };
    insert_playlist(&mut state, renamed.clone());
    match &state {
        LibraryState::Ready { playlists, .. } => assert_eq!(playlists, &vec![tile("p2"), renamed]),
        _ => panic!("the shelf stays ready"),
    }
    drop_playlist(&mut state, &"p2".to_owned());
    match &state {
        LibraryState::Ready { playlists, .. } => assert_eq!(playlists.len(), 1),
        _ => panic!("the shelf stays ready"),
    }
}

#[test]
fn a_dropped_track_leaves_the_page() {
    let mut tracks = vec![track("a"), track("b"), track("a")];
    drop_track(&mut tracks, &"a".to_owned());
    assert_eq!(ids(&tracks), vec!["b"]);
}

#[test]
fn hidden_tracks_leave_the_page_and_say_so() {
    let mut tracks = vec![track("a"), track("b"), track("c")];
    let mut unnamed = track("z");
    unnamed.id = None;
    tracks.push(unnamed);
    assert!(hide_tracks(&mut tracks, &vec!["a".to_owned(), "c".to_owned()]));
    assert_eq!(tracks.len(), 2);
    assert_eq!(tracks[0].id, Some("b".to_owned()));
    assert!(tracks[1].id.is_none());
    assert!(!hide_tracks(&mut tracks, &vec!["q".to_owned()]));
}

#[test]
fn a_toggle_saves_what_was_not_saved_and_a_refusal_undoes_it() {
    let mut items = vec![track("a")];
    let (now_saved, previous) = toggle(&mut items, track("b"), false);
    assert!(now_saved);
    assert!(previous.is_none());
    assert_eq!(ids(&items), vec!["a", "b"]);
    revert(&mut items, track("b"), previous, false);
    assert_eq!(ids(&items), vec!["a"]);
}

#[test]
fn a_toggle_unsaves_what_was_saved_and_a_refusal_puts_it_back() {
    let mut items = vec![tile("a"), tile("b")];
    let mut renamed = tile("a");
    renamed.name = "Other".to_owned();
    let (now_saved, previous) = toggle(&mut items, renamed.clone(), true);
    assert!(!now_saved);
    assert_eq!(previous, Some(tile("a")));
    assert_eq!(items, vec![tile("b")]);
    revert(&mut items, renamed, previous, true);
    assert_eq!(items, vec![tile("a"), tile("b")]);
}

fn ids_of(tracks: &[Track]) -> Vec<String> {
    tracks.iter().map(|track| track.id.clone().unwrap_or_default()).collect()
}

#[test]
fn a_detail_page_follows_the_account_that_provides_it() {
    let shown = Some("spotify:playlist:mix".to_owned());
    let mut tracks = vec![track("a"), track("b")];
    assert_eq!(
        detail_step(&shown, Some(Collection::Playlist), &mut tracks, DetailHappening::SignedOut { ours: true }),
        DetailStep::Clear
    );
    assert_eq!(
        detail_step(&shown, Some(Collection::Playlist), &mut tracks, DetailHappening::SignedOut { ours: false }),
        DetailStep::Stay
    );
    assert_eq!(
        detail_step(&shown, Some(Collection::Playlist), &mut tracks, DetailHappening::SignedIn { ours: true }),
        DetailStep::Reopen { kind: Collection::Playlist, id: "spotify:playlist:mix".to_owned() }
    );
    assert_eq!(
        detail_step(&shown, None, &mut tracks, DetailHappening::SignedIn { ours: true }),
        DetailStep::Stay
    );
    assert_eq!(
        detail_step(&None, Some(Collection::Album), &mut tracks, DetailHappening::SignedOut { ours: true }),
        DetailStep::Stay
    );
    assert_eq!(ids_of(&tracks), ["a", "b"]);
}

#[test]
fn a_detail_page_follows_its_playlist() {
    let shown = Some("mix".to_owned());
    let mut tracks = vec![track("a"), track("b"), track("c")];
    let added = DetailHappening::Library(LibraryEvent::TrackAdded { playlist: "mix".to_owned() });
    assert_eq!(
        detail_step(&shown, Some(Collection::Playlist), &mut tracks, added),
        DetailStep::Reload { id: "mix".to_owned() }
    );
    let elsewhere = DetailHappening::Library(LibraryEvent::TrackAdded { playlist: "other".to_owned() });
    assert_eq!(detail_step(&shown, Some(Collection::Playlist), &mut tracks, elsewhere), DetailStep::Stay);

    let dropped = DetailHappening::Library(LibraryEvent::TrackDropped {
        playlist: "mix".to_owned(),
        track: "b".to_owned(),
    });
    assert_eq!(detail_step(&shown, Some(Collection::Playlist), &mut tracks, dropped), DetailStep::Redraw);
    assert_eq!(ids_of(&tracks), ["a", "c"]);

    let hidden = DetailHappening::TracksHidden(vec!["c".to_owned(), "z".to_owned()]);
    assert_eq!(detail_step(&shown, Some(Collection::Playlist), &mut tracks, hidden), DetailStep::Redraw);
    assert_eq!(ids_of(&tracks), ["a"]);
    let none = DetailHappening::TracksHidden(vec!["z".to_owned()]);
    assert_eq!(detail_step(&shown, Some(Collection::Playlist), &mut tracks, none), DetailStep::Stay);
    assert_eq!(ids_of(&tracks), ["a"]);
}
