use sonora::library::{fatal_parts, place, take, Landed, LibraryPart, LibraryState, Problem, Shelf};

type State = LibraryState<u32, u32, u32, u32>;
type Land = Landed<u32, u32, u32, u32>;

const FATAL: [LibraryPart; 3] = [LibraryPart::Tracks, LibraryPart::Playlists, LibraryPart::Albums];

fn all() -> Vec<LibraryPart> {
    LibraryPart::all().to_vec()
}

#[test]
fn every_part_has_its_label() {
    let labels: Vec<&str> = LibraryPart::all().iter().map(|part| part.label()).collect();
    assert_eq!(labels, vec!["songs", "playlists", "albums", "artists"]);
}

#[test]
fn a_failed_list_is_kept_empty_with_its_problem() {
    let mut problems = Vec::new();
    let kept: Vec<u32> = take(LibraryPart::Albums, Err("offline".to_owned()), &mut problems);
    assert!(kept.is_empty());
    assert_eq!(
        problems,
        vec![Problem {
            part: LibraryPart::Albums,
            reason: "offline".to_owned()
        }]
    );
    let kept = take(LibraryPart::Tracks, Ok(vec![1, 2]), &mut problems);
    assert_eq!(kept, vec![1, 2]);
    assert_eq!(problems.len(), 1);
}

#[test]
fn parts_fill_the_shelf_as_they_land() {
    let mut state: State = LibraryState::Loading;
    let mut awaited = all();
    place(&mut state, &mut awaited, Land::Tracks(Ok(vec![1, 2, 3])), &FATAL);
    assert_eq!(awaited, vec![LibraryPart::Playlists, LibraryPart::Albums, LibraryPart::Artists]);
    place(&mut state, &mut awaited, Land::Albums(Err("timeout".to_owned())), &FATAL);
    place(&mut state, &mut awaited, Land::Playlists(Ok(vec![9])), &FATAL);
    place(&mut state, &mut awaited, Land::Artists(Ok(vec![])), &FATAL);
    assert!(awaited.is_empty());
    match state {
        LibraryState::Ready { tracks, playlists, albums, artists, problems } => {
            assert_eq!(tracks, vec![1, 2, 3]);
            assert_eq!(playlists, vec![9]);
            assert!(albums.is_empty());
            assert!(artists.is_empty());
            assert_eq!(problems.len(), 1);
            assert_eq!(problems[0].part, LibraryPart::Albums);
        }
        _ => panic!("one failed part leaves the shelf ready"),
    }
}

#[test]
fn a_shelf_fails_only_when_every_part_it_needs_failed() {
    let mut state: State = LibraryState::Loading;
    let mut awaited = all();
    place(&mut state, &mut awaited, Land::Albums(Err("c".to_owned())), &FATAL);
    place(&mut state, &mut awaited, Land::Tracks(Err("a".to_owned())), &FATAL);
    place(&mut state, &mut awaited, Land::Artists(Err("d".to_owned())), &FATAL);
    assert!(matches!(state, LibraryState::Ready { .. }));
    place(&mut state, &mut awaited, Land::Playlists(Err("b".to_owned())), &FATAL);
    match state {
        LibraryState::Failed(reason) => assert_eq!(reason, "a\nb\nc"),
        _ => panic!("every part the shelf needs failed"),
    }
}

#[test]
fn a_shelf_does_not_fail_while_parts_are_awaited() {
    let mut state: State = LibraryState::Empty;
    let mut awaited = vec![LibraryPart::Tracks, LibraryPart::Albums];
    let fatal = [LibraryPart::Tracks, LibraryPart::Albums];
    place(&mut state, &mut awaited, Land::Tracks(Err("x".to_owned())), &fatal);
    assert!(matches!(state, LibraryState::Ready { .. }));
    place(&mut state, &mut awaited, Land::Albums(Err("y".to_owned())), &fatal);
    assert!(matches!(state, LibraryState::Failed(ref reason) if reason == "x\ny"));
}

#[test]
fn a_shelf_of_a_provider_listing_all_tracks_keeps_favorites_apart() {
    let mut shelf: Shelf<u32, u32, u32> = Shelf::loading(true);
    assert!(shelf.favorites.as_ref().is_some_and(|held| held.is_empty()));
    assert!(shelf.is_loading(LibraryPart::Artists));
    shelf.stock(Err("offline".to_owned()));
    assert!(shelf.favorites.as_ref().is_some_and(|held| held.is_empty()));
    assert!(Shelf::<u32, u32, u32>::loading(false).favorites.is_none());
}

#[test]
fn a_landing_shelf_fails_as_its_provider_needs() {
    let mut shelf: Shelf<u32, u32, u32> = Shelf::loading(true);
    shelf.land(Landed::Tracks(Err("down".to_owned())), true);
    assert!(!shelf.is_loading(LibraryPart::Tracks));
    assert!(shelf.is_loading(LibraryPart::Albums));
    assert!(shelf.failed(LibraryPart::Tracks));
    shelf.land(Landed::Playlists(Err("down".to_owned())), true);
    shelf.land(Landed::Artists(Ok(vec![])), true);
    shelf.land(Landed::Albums(Err("down".to_owned())), true);
    assert!(matches!(shelf.state, LibraryState::Failed(_)));

    let mut provider: Shelf<u32, u32, u32> = Shelf::loading(false);
    provider.land(Landed::Tracks(Err("down".to_owned())), false);
    provider.land(Landed::Playlists(Ok(vec![1])), false);
    provider.land(Landed::Albums(Err("down".to_owned())), false);
    provider.land(Landed::Artists(Err("down".to_owned())), false);
    assert!(matches!(provider.state, LibraryState::Ready { .. }));
}

#[test]
fn the_parts_a_shelf_cannot_do_without() {
    assert_eq!(fatal_parts(true), vec![LibraryPart::Tracks, LibraryPart::Albums]);
    assert_eq!(
        fatal_parts(false),
        vec![LibraryPart::Tracks, LibraryPart::Playlists, LibraryPart::Albums]
    );
}
