use sonora::template::{fill, keys, pieces, Piece};

fn text(s: &str) -> Piece {
    Piece::Text(s.to_owned())
}

fn key(s: &str) -> Piece {
    Piece::Key(s.to_owned())
}

#[test]
fn places_are_found_and_their_keys_trimmed() {
    assert_eq!(
        pieces("<p>{{ jam-title }}</p> v{{protocol}}!"),
        vec![text("<p>"), key("jam-title"), text("</p> v"), key("protocol"), text("!")]
    );
}

#[test]
fn an_unclosed_place_is_kept_as_text() {
    assert_eq!(pieces("a{{b"), vec![text("a"), text("{{"), text("b")]);
    assert_eq!(
        pieces("{{x}} {{ y"),
        vec![text(""), key("x"), text(" "), text("{{"), text(" y")]
    );
}

#[test]
fn a_template_without_places_is_one_text() {
    assert_eq!(pieces("plain } text {"), vec![text("plain } text {")]);
    assert_eq!(pieces(""), vec![text("")]);
}

#[test]
fn places_are_filled_in_order() {
    let parts = pieces("<h1>{{ title }}</h1><i>{{protocol}}</i>{{");
    let wanted = keys(&parts);
    assert_eq!(wanted, vec!["title".to_owned(), "protocol".to_owned()]);
    let page = fill(&parts, &vec!["Jam".to_owned(), "5".to_owned()]);
    assert_eq!(page, "<h1>Jam</h1><i>5</i>{{");
}
