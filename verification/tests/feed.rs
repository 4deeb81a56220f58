use sonora::feed::{
    blank, credited, merge, pruned, woven_copies, GenreItem, GenreSection, HomeFeed, Page, Tile,
    PICKS_LIMIT,
};
use sonora::track::Track;

fn track(id: &str) -> Track {
    Track {
        id: Some(id.to_owned()),
        name: format!("Song {id}"),
        artists: "Band".to_owned(),
        album: "Record".to_owned(),
        album_id: None,
        cover: None,
        duration_ms: 200_000,
        explicit: false,
        playable: true,
    }
}

fn album(id: &str) -> GenreItem {
    GenreItem::Album(Tile {
        id: id.to_owned(),
        name: format!("Album {id}"),
    })
}

fn playlist(id: &str, name: &str) -> GenreItem {
    GenreItem::Playlist(Tile {
        id: id.to_owned(),
        name: name.to_owned(),
    })
}

fn shelf(title: &str, items: Vec<GenreItem>) -> GenreSection {
    GenreSection {
        title: title.to_owned(),
        items,
        provider: None,
    }
}

fn lot(recent: Vec<GenreItem>, picks: Option<Vec<Track>>, sections: Vec<GenreSection>) -> HomeFeed {
    HomeFeed {
        listen_again: recent,
        quick_picks: picks,
        sections,
    }
}

#[test]
fn only_a_playlist_without_a_name_is_blank() {
    assert!(blank(&playlist("p1", "")));
    assert!(!blank(&playlist("p1", "Mix")));
    assert!(!blank(&album("a1")));
    assert!(!blank(&GenreItem::Track(track("t1"))));
}

#[test]
fn pruning_drops_blank_tiles_and_empty_shelves() {
    let sections = vec![
        shelf("Mixes", vec![playlist("p1", ""), playlist("p2", "Daily")]),
        shelf("Unnamed", vec![playlist("p3", "")]),
        shelf("Albums", vec![album("a1")]),
    ];
    let drawn = pruned(&sections);
    assert_eq!(
        drawn,
        vec![
            shelf("Mixes", vec![playlist("p2", "Daily")]),
            shelf("Albums", vec![album("a1")]),
        ]
    );
    assert_eq!(pruned(&drawn), drawn);
}

#[test]
fn quick_picks_start_with_what_was_played_and_skip_it_among_the_picks() {
    let recent = vec![GenreItem::Track(track("t1")), album("a1")];
    let picks = vec![track("t1"), track("t2"), track("t3")];
    let merged = merge(&recent, &picks);
    assert_eq!(
        merged,
        vec![
            GenreItem::Track(track("t1")),
            album("a1"),
            GenreItem::Track(track("t2")),
            GenreItem::Track(track("t3")),
        ]
    );
}

#[test]
fn quick_picks_stop_at_their_limit() {
    let recent: Vec<GenreItem> = (0..25).map(|i| album(&format!("a{i}"))).collect();
    let picks: Vec<Track> = (0..10).map(|i| track(&format!("t{i}"))).collect();
    let merged = merge(&recent, &picks);
    assert_eq!(merged.len(), PICKS_LIMIT);
    assert_eq!(merged[24], album("a24"));
    assert_eq!(merged[25], GenreItem::Track(track("t0")));
    assert_eq!(merged[29], GenreItem::Track(track("t4")));

    let many: Vec<GenreItem> = (0..40).map(|i| album(&format!("a{i}"))).collect();
    let merged = merge(&many, &picks);
    assert_eq!(merged, many[..PICKS_LIMIT].to_vec());
}

#[test]
fn lanes_are_woven_a_row_at_a_time() {
    let lanes = vec![
        vec![album("a1"), album("a2"), album("a3")],
        vec![album("b1")],
        vec![album("c1"), album("c2")],
    ];
    let woven = woven_copies(&lanes);
    assert_eq!(
        woven,
        vec![album("a1"), album("b1"), album("c1"), album("a2"), album("c2"), album("a3")]
    );
}

#[test]
fn shelves_are_credited_to_their_provider() {
    let shelves = credited("Deezer", &vec![shelf("Mixes", vec![album("a1")])]);
    assert_eq!(shelves[0].provider, Some("Deezer".to_owned()));
    assert_eq!(shelves[0].title, "Mixes");
}

#[test]
fn out_of_view_a_lot_lands_as_it_is() {
    let mut page = Page::new();
    let names = page.land(lot(
        vec![album("a1")],
        Some(vec![track("t1")]),
        vec![shelf("Mixes", vec![playlist("p1", ""), album("a2")])],
    ));
    assert_eq!(page.recent(), &vec![album("a1")]);
    assert_eq!(page.picks(), &vec![track("t1")]);
    assert_eq!(page.quick_picks(), &vec![album("a1"), GenreItem::Track(track("t1"))]);
    assert_eq!(page.sections(), &vec![shelf("Mixes", vec![album("a2")])]);
    assert!(page.pending().is_none());
    assert_eq!(names, Some(vec![shelf("Mixes", vec![playlist("p1", ""), album("a2")])]));
}

#[test]
fn in_view_a_drawn_shelf_keeps_its_tiles_and_the_lot_waits() {
    let mut page = Page::new();
    page.land(lot(vec![album("a1")], None, vec![shelf("Mixes", vec![album("m1")])]));
    assert!(page.set_visible(true).is_none());

    let names = page.land(lot(
        vec![album("a1"), album("a2")],
        None,
        vec![shelf("Mixes", vec![album("m2")]), shelf("New", vec![album("n1")])],
    ));
    assert!(names.is_none());
    assert_eq!(
        page.sections(),
        &vec![shelf("Mixes", vec![album("m1")]), shelf("New", vec![album("n1")])]
    );
    assert_eq!(page.recent(), &vec![album("a1"), album("a2")]);
    assert!(page.pending().is_some());

    page.set_visible(false);
    assert_eq!(
        page.sections(),
        &vec![shelf("Mixes", vec![album("m2")]), shelf("New", vec![album("n1")])]
    );
    assert!(page.pending().is_none());
}

#[test]
fn in_view_what_was_played_only_grows_at_its_end() {
    let mut page = Page::new();
    page.land(lot(vec![album("a1"), album("a2")], Some(vec![track("t1")]), vec![]));
    page.set_visible(true);
    page.land(lot(vec![album("a2")], Some(vec![track("t9")]), vec![]));
    assert_eq!(page.recent(), &vec![album("a1"), album("a2")]);
    assert_eq!(page.picks(), &vec![track("t1")]);
    assert!(page.pending().is_some());
}

#[test]
fn in_view_a_lot_that_only_adds_lands_whole() {
    let mut page = Page::new();
    page.land(lot(vec![album("a1")], Some(vec![track("t1")]), vec![]));
    page.set_visible(true);
    page.land(lot(
        vec![album("a1"), album("a2")],
        Some(vec![track("t1"), track("t2")]),
        vec![shelf("New", vec![album("n1")])],
    ));
    assert_eq!(page.picks(), &vec![track("t1"), track("t2")]);
    assert!(page.pending().is_none());
}

#[test]
fn each_provider_keeps_its_lane() {
    let mut page = Page::new();
    assert!(page.begin(vec!["deezer".to_owned(), "local".to_owned()]));
    page.lane(
        "local".to_owned(),
        "Local",
        lot(vec![album("l1")], None, vec![shelf("Yours", vec![album("l2")])]),
    );
    page.lane(
        "deezer".to_owned(),
        "Deezer",
        lot(vec![album("d1"), album("d2")], None, vec![shelf("Flow", vec![album("d3")])]),
    );
    assert_eq!(page.recent(), &vec![album("d1"), album("l1"), album("d2")]);
    let titles: Vec<&str> = page.sections().iter().map(|s| s.title.as_str()).collect();
    assert_eq!(titles, vec!["Flow", "Yours"]);
    assert_eq!(page.sections()[0].provider, Some("Deezer".to_owned()));
    assert_eq!(page.sections()[1].provider, Some("Local".to_owned()));
}

#[test]
fn a_fetch_starts_only_when_nothing_is_drawn() {
    let mut page = Page::new();
    assert!(!page.begin(vec![]));
    assert!(page.begin(vec!["deezer".to_owned()]));
    assert!(page.is_feeding());
    assert!(!page.begin(vec!["deezer".to_owned()]));
}

#[test]
fn an_empty_fetch_is_tried_again_three_times() {
    let mut page = Page::new();
    assert_eq!(page.fed(), Some(3000));
    assert_eq!(page.fed(), Some(10_000));
    assert_eq!(page.fed(), Some(30_000));
    assert_eq!(page.fed(), None);
    page.retry();
    assert_eq!(page.fed(), Some(3000));
}

#[test]
fn a_fetch_that_brought_something_starts_the_count_over() {
    let mut page = Page::new();
    assert_eq!(page.fed(), Some(3000));
    page.land(lot(vec![album("a1")], None, vec![]));
    assert_eq!(page.fed(), None);
    page.land(lot(vec![], None, vec![]));
    assert_eq!(page.fed(), Some(3000));
}

#[test]
fn the_failure_shows_only_on_an_empty_page() {
    let mut page = Page::new();
    page.begin(vec!["deezer".to_owned()]);
    page.stumbled("offline".to_owned());
    assert!(page.error().is_none());
    page.fed();
    assert_eq!(page.error(), Some(&"offline".to_owned()));
    page.mix(vec![track("t1")]);
    assert!(page.error().is_none());
}

#[test]
fn library_picks_never_replace_a_providers() {
    let mut page = Page::new();
    assert!(page.mix(vec![track("t1")]));
    assert!(!page.mix(vec![track("t2")]));
    assert_eq!(page.picks(), &vec![track("t1")]);
}

#[test]
fn named_shelves_replace_the_drawn_ones() {
    let mut page = Page::new();
    page.land(lot(vec![], None, vec![shelf("Mixes", vec![playlist("p1", "")])]));
    assert!(page.sections().is_empty());
    page.named(vec![
        ("Deezer".to_owned(), vec![shelf("Mixes", vec![playlist("p1", "Daily")])]),
        ("Local".to_owned(), vec![shelf("Yours", vec![album("l1")])]),
    ]);
    assert_eq!(page.sections().len(), 2);
    assert_eq!(page.sections()[0].items, vec![playlist("p1", "Daily")]);
    assert_eq!(page.sections()[1].provider, Some("Local".to_owned()));
}
