use sonora::cover::{Cover, Held};

fn art(large: &str, max: Option<&str>) -> Held {
    Held {
        large: Some(large.to_owned()),
        max: max.map(str::to_owned),
    }
}

#[test]
fn a_new_album_without_artwork_asks_for_it() {
    let mut cover = Cover::new();
    assert_eq!(cover.follow(Some("a1".to_owned())), Some("a1".to_owned()));
    assert!(cover.large().is_none());
    assert_eq!(cover.follow(Some("a1".to_owned())), None);
}

#[test]
fn artwork_that_comes_shows_for_the_album_that_plays() {
    let mut cover = Cover::new();
    cover.follow(Some("a1".to_owned()));
    assert!(cover.loaded("a1".to_owned(), art("l1", Some("m1"))));
    assert_eq!(cover.large(), Some(&"l1".to_owned()));
    assert_eq!(cover.max(), Some(&"m1".to_owned()));
    assert_eq!(cover.large_for(&"a1".to_owned()), Some(&"l1".to_owned()));
    assert_eq!(cover.large_for(&"a2".to_owned()), None);
}

#[test]
fn the_largest_falls_back_to_the_large_one() {
    let mut cover = Cover::new();
    cover.follow(Some("a1".to_owned()));
    cover.loaded("a1".to_owned(), art("l1", None));
    assert_eq!(cover.max(), Some(&"l1".to_owned()));
}

#[test]
fn artwork_for_another_album_is_kept_but_not_shown() {
    let mut cover = Cover::new();
    cover.follow(Some("a2".to_owned()));
    assert!(!cover.loaded("a1".to_owned(), art("l1", None)));
    assert!(cover.large().is_none());
    assert_eq!(cover.follow(Some("a1".to_owned())), None);
    assert_eq!(cover.large(), Some(&"l1".to_owned()));
}

#[test]
fn empty_artwork_is_not_kept() {
    let mut cover = Cover::new();
    cover.follow(Some("a1".to_owned()));
    assert!(!cover.loaded(
        "a1".to_owned(),
        Held {
            large: None,
            max: None
        }
    ));
    cover.follow(None);
    assert_eq!(cover.follow(Some("a1".to_owned())), Some("a1".to_owned()));
}

#[test]
fn a_signed_out_providers_artwork_is_forgotten() {
    let mut cover = Cover::new();
    cover.follow(Some("a1".to_owned()));
    cover.loaded("a1".to_owned(), art("l1", None));
    cover.forget(&vec!["a1".to_owned()], true);
    assert!(cover.large().is_none());
    assert_eq!(cover.follow(Some("a1".to_owned())), Some("a1".to_owned()));
}
