use sonora::contents::Contents;

fn ids(list: &[&str]) -> Vec<String> {
    list.iter().map(|id| id.to_string()).collect()
}

fn s(text: &str) -> String {
    text.to_owned()
}

#[test]
fn a_playlist_not_read_holds_nothing_known() {
    let contents = Contents::new();
    assert_eq!(contents.holds(&s("p1"), &s("t1")), None);
}

#[test]
fn a_read_playlist_says_what_it_holds() {
    let mut contents = Contents::new();
    contents.read(s("p1"), ids(&["t1", "t2"]));
    assert_eq!(contents.holds(&s("p1"), &s("t1")), Some(true));
    assert_eq!(contents.holds(&s("p1"), &s("t9")), Some(false));
    contents.read(s("p1"), ids(&["t9"]));
    assert_eq!(contents.holds(&s("p1"), &s("t1")), Some(false));
    assert_eq!(contents.holds(&s("p1"), &s("t9")), Some(true));
}

#[test]
fn additions_and_removals_follow_a_read_playlist_only() {
    let mut contents = Contents::new();
    contents.read(s("p1"), ids(&["t1", "t2", "t1"]));
    contents.read(s("p2"), ids(&["t1"]));
    contents.added(&s("p1"), &ids(&["t3"]));
    contents.added(&s("p3"), &ids(&["t3"]));
    assert_eq!(contents.holds(&s("p1"), &s("t3")), Some(true));
    assert_eq!(contents.holds(&s("p3"), &s("t3")), None);
    contents.dropped(&s("p1"), &ids(&["t1"]));
    assert_eq!(contents.holds(&s("p1"), &s("t1")), Some(false));
    assert_eq!(contents.holds(&s("p1"), &s("t2")), Some(true));
    assert_eq!(contents.holds(&s("p2"), &s("t1")), Some(true));
}

#[test]
fn a_signed_out_providers_playlists_are_forgotten() {
    let mut contents = Contents::new();
    contents.read(s("p1"), ids(&["t1"]));
    contents.read(s("p2"), ids(&["t2"]));
    contents.unread(&ids(&["p1"]));
    assert_eq!(contents.holds(&s("p1"), &s("t1")), None);
    assert_eq!(contents.holds(&s("p2"), &s("t2")), Some(true));
}
