use sonora::jam::{
    backoff, fresh_code, heard, join_code, join_form, joining, leave, room_name, JamEvent, JamRole,
    Rejoin,
};
use sonora::receiver::ReceiverEvent;
use sonora::server::Playing;
use sonora::wire::{Farewell, Refusal};

fn host() -> String {
    "192.168.1.20:7878".to_owned()
}

#[test]
fn a_welcome_makes_a_listener_of_the_room() {
    let mut role = JamRole::Joining { at: host() };
    let told = heard(&mut role, ReceiverEvent::Welcomed("Kitchen".to_owned()), &host());
    assert_eq!(told.0, Some(JamEvent::Joined));
    assert!(told.1.is_none());
    assert_eq!(
        role,
        JamRole::Listening {
            room: "Kitchen".to_owned(),
            host: host(),
            at: host()
        }
    );
}

#[test]
fn what_the_host_plays_leaves_the_role_alone() {
    let mut role = JamRole::Listening {
        room: "Kitchen".to_owned(),
        host: host(),
        at: host(),
    };
    let playing = Playing {
        title: "Song".to_owned(),
        artist: "Band".to_owned(),
        album: "Record".to_owned(),
        cover: None,
        duration_ms: 1000,
        provider: "local".to_owned(),
    };
    let told = heard(&mut role, ReceiverEvent::Now(playing.clone()), &host());
    assert!(told.0.is_none());
    assert_eq!(told.1, Some(playing));
    assert!(matches!(role, JamRole::Listening { .. }));
}

#[test]
fn a_refusal_an_end_and_a_loss_each_change_the_role() {
    let mut role = JamRole::Joining { at: host() };
    let told = heard(&mut role, ReceiverEvent::Refused(Refusal::Code), &host());
    assert_eq!(told.0, Some(JamEvent::Refused(Refusal::Code)));
    assert_eq!(role, JamRole::Idle);

    let mut role = JamRole::Joining { at: host() };
    let told = heard(&mut role, ReceiverEvent::Ended(Farewell::HostLeft), &host());
    assert!(told.0.is_none());
    assert_eq!(role, JamRole::Idle);

    let mut role = JamRole::Joining { at: host() };
    heard(&mut role, ReceiverEvent::Lost, &host());
    assert_eq!(role, JamRole::Lost { at: host() });
}

#[test]
fn joining_needs_an_idle_player() {
    let mut role = JamRole::Idle;
    assert!(joining(&mut role, &host()));
    assert_eq!(role, JamRole::Joining { at: host() });
    assert!(!joining(&mut role, &"10.0.0.1:7878".to_owned()));
    assert_eq!(role, JamRole::Joining { at: host() });
}

#[test]
fn leaving_is_for_listeners_only() {
    let mut role = JamRole::Lost { at: host() };
    assert!(leave(&mut role));
    assert_eq!(role, JamRole::Idle);
    assert!(!leave(&mut role));
}

#[test]
fn the_waits_between_tries_grow_then_stop() {
    assert_eq!(backoff(0), Some(1000));
    assert_eq!(backoff(1), Some(5000));
    assert_eq!(backoff(2), Some(15000));
    assert_eq!(backoff(3), None);
}

#[test]
fn a_listener_that_never_gets_in_gives_up_after_three_tries() {
    let mut tries = Rejoin::new();
    tries.hear(&ReceiverEvent::Lost);
    assert_eq!(tries.ended(), Some(1000));
    assert_eq!(tries.ended(), Some(5000));
    assert_eq!(tries.ended(), Some(15000));
    assert_eq!(tries.ended(), None);
    assert_eq!(tries.failures, 3);
}

#[test]
fn a_welcome_starts_the_tries_over() {
    let mut tries = Rejoin::new();
    assert_eq!(tries.ended(), Some(1000));
    assert_eq!(tries.ended(), Some(5000));
    tries.hear(&ReceiverEvent::Welcomed("Kitchen".to_owned()));
    assert_eq!(tries.ended(), Some(1000));
    assert_eq!(tries.failures, 1);
}

#[test]
fn a_refusal_stops_the_tries() {
    let mut tries = Rejoin::new();
    tries.hear(&ReceiverEvent::Welcomed("Kitchen".to_owned()));
    tries.hear(&ReceiverEvent::Refused(Refusal::Full));
    assert_eq!(tries.ended(), None);
}

#[test]
fn a_room_without_a_name_is_called_sonora() {
    assert_eq!(room_name(""), "Sonora");
    assert_eq!(room_name("Kitchen"), "Kitchen");
}

#[test]
fn codes_have_six_digits_zeros_first() {
    assert_eq!(join_code(42), "000042");
    assert_eq!(join_code(0), "000000");
    assert_eq!(join_code(999_999), "999999");
    assert_eq!(join_code(120_305), "120305");
}

#[test]
fn a_fresh_code_is_six_digits() {
    let code = fresh_code();
    assert_eq!(code.len(), 6);
    assert!(code.chars().all(|c| c.is_ascii_digit()));
}

#[test]
fn the_join_form_trims_and_needs_both_fields() {
    assert_eq!(
        join_form("  192.168.1.20:7878 ", " 004217\n"),
        Some(("192.168.1.20:7878".to_owned(), "004217".to_owned()))
    );
    assert_eq!(join_form("   ", "004217"), None);
    assert_eq!(join_form("host", ""), None);
}

#[test]
fn every_kind_of_white_space_is_trimmed() {
    assert_eq!(
        join_form("\u{3000}\u{a0}10.0.0.2\u{2028}\t", "\u{85}\u{2009}123456\u{202f}\u{1680}"),
        Some(("10.0.0.2".to_owned(), "123456".to_owned()))
    );
    assert_eq!(join_form("\u{200b}host", "1"), Some(("\u{200b}host".to_owned(), "1".to_owned())));
    assert_eq!(join_form("\u{205f}\u{b}\u{c}\r\n", "1"), None);
}
