use sonora::server::{opening, refusal, route, upgrading, Answer, Asked, Happening, Limits, Playing, Session, Step, Transport, ADDS, LISTENERS, STRIKES, WINDOW_MS};
use sonora::wire::{Codec, Denial, Format, Farewell, FromHost, FromReceiver, Header, MarkKind, Refusal, PROTOCOL};

#[test]
fn a_listener_is_let_in_only_when_it_can_follow() {
    let pcm = vec![Codec::Pcm16];
    assert_eq!(refusal(PROTOCOL, &pcm, 0), None);
    assert_eq!(refusal(PROTOCOL + 1, &pcm, 0), Some(Refusal::Protocol));
    assert_eq!(refusal(PROTOCOL, &vec![], 0), Some(Refusal::Codec));
    assert_eq!(refusal(PROTOCOL, &pcm, LISTENERS), Some(Refusal::Full));
    assert_eq!(refusal(PROTOCOL, &pcm, LISTENERS - 1), None);
    assert_eq!(refusal(PROTOCOL - 1, &vec![], LISTENERS), Some(Refusal::Protocol));
}

#[test]
fn a_peer_that_strikes_out_is_kept_out_for_the_window() {
    let mut limits = Limits::new();
    let peer = 0x7f00_0001;
    for at in 0..STRIKES - 1 {
        limits.strike(peer, at);
        assert!(!limits.blocked(peer, at));
    }
    limits.strike(peer, 10);
    assert_eq!(limits.strikes(peer), STRIKES);
    assert!(limits.blocked(peer, 10));
    assert!(limits.blocked(peer, WINDOW_MS - 1));
    assert!(!limits.blocked(0x7f00_0002, 10));
}

#[test]
fn a_window_that_has_passed_forgives() {
    let mut limits = Limits::new();
    let peer = 42;
    for _ in 0..STRIKES {
        limits.strike(peer, 1_000);
    }
    assert!(limits.blocked(peer, 1_000));
    assert!(!limits.blocked(peer, 1_000 + WINDOW_MS));
    assert_eq!(limits.strikes(peer), 0);
    limits.strike(peer, 1_000 + WINDOW_MS);
    assert_eq!(limits.strikes(peer), 1);
}

#[test]
fn a_late_strike_starts_a_new_window() {
    let mut limits = Limits::new();
    limits.strike(9, 0);
    limits.strike(9, 1);
    assert_eq!(limits.strikes(9), 2);
    limits.strike(9, WINDOW_MS + 5);
    assert_eq!(limits.strikes(9), 1);
}

fn session() -> Session {
    Session::new("10.0.0.2:5000".to_owned())
}

#[test]
fn a_chunk_tells_its_mark_then_sends_its_frame() {
    let mut s = session();
    let header = Header { seq: 3, first_sample: 44_100 };
    let steps = s.step(Happening::Chunk {
        mark: Some(MarkKind::Quiet),
        header,
        bytes: vec![1, 2, 3, 4],
        origin: 99,
    });
    assert_eq!(steps.len(), 2);
    assert!(matches!(steps[0], Step::Say(FromHost::Mark { mark: MarkKind::Quiet, at: 44_100, origin: 99 })));
    match &steps[1] {
        Step::Frame(frame) => {
            let mut expected = Vec::new();
            header.write(&mut expected);
            expected.extend_from_slice(&[1, 2, 3, 4]);
            assert_eq!(frame, &expected);
        }
        other => panic!("expected a frame, got {other:?}"),
    }
    let steps = s.step(Happening::Chunk { mark: None, header, bytes: vec![], origin: 99 });
    assert!(steps.is_empty());
}

#[test]
fn a_lagging_listener_is_told_to_cut() {
    let steps = session().step(Happening::Lagged { origin: 7 });
    assert!(matches!(steps.as_slice(), [Step::Say(FromHost::Mark { mark: MarkKind::Cut, at: 0, origin: 7 })]));
}

#[test]
fn the_transport_and_the_track_are_passed_on() {
    let mut s = session();
    let steps = s.step(Happening::Moved(Transport { playing: true, position_ms: 12 }));
    assert!(matches!(steps.as_slice(), [Step::Say(FromHost::Transport { playing: true, position_ms: 12 })]));
    assert!(s.step(Happening::Now(None)).is_empty());
    let steps = s.step(Happening::Now(Some(Playing {
        title: "Song".to_owned(),
        artist: "Band".to_owned(),
        album: "Record".to_owned(),
        cover: None,
        duration_ms: 1,
        provider: "local".to_owned(),
    })));
    assert!(matches!(&steps[..], [Step::Say(FromHost::Now { title, .. })] if title == "Song"));
}

#[test]
fn only_the_kicked_listener_is_closed() {
    let mut s = session();
    assert!(s.step(Happening::Kicked("10.0.0.3:5000".to_owned())).is_empty());
    let steps = s.step(Happening::Kicked("10.0.0.2:5000".to_owned()));
    assert!(matches!(
        steps.as_slice(),
        [Step::Say(FromHost::Ended { reason: Farewell::Kicked }), Step::Close, Step::Stop]
    ));
}

#[test]
fn a_ping_is_answered_with_the_hosts_clock() {
    let steps = session().step(Happening::Heard {
        message: Some(FromReceiver::Ping { t0: 5, need: 100 }),
        t1: 1_005,
        t2: 1_006,
    });
    assert!(matches!(steps.as_slice(), [Step::Say(FromHost::Pong { t0: 5, t1: 1_005, t2: 1_006 })]));
}

#[test]
fn adds_past_the_allowance_are_denied_as_busy() {
    let mut s = session();
    for n in 0..ADDS {
        let steps = s.step(Happening::Heard {
            message: Some(FromReceiver::Add { id: format!("t{n}") }),
            t1: 0,
            t2: 0,
        });
        assert!(matches!(&steps[..], [Step::Ask(Asked::Add(id))] if id == &format!("t{n}")));
    }
    let steps = s.step(Happening::Heard {
        message: Some(FromReceiver::Add { id: "one more".to_owned() }),
        t1: 0,
        t2: 0,
    });
    assert!(matches!(steps.as_slice(), [Step::Queue(FromHost::Denied { reason: Denial::Busy })]));
    assert_eq!(s.added, ADDS + 1);
}

#[test]
fn searches_are_asked_and_goodbyes_end_the_session() {
    let mut s = session();
    let steps = s.step(Happening::Heard {
        message: Some(FromReceiver::Find { query: "abba".to_owned() }),
        t1: 0,
        t2: 0,
    });
    assert!(matches!(&steps[..], [Step::Ask(Asked::Find(q))] if q == "abba"));
    let steps = s.step(Happening::Heard { message: Some(FromReceiver::Bye), t1: 0, t2: 0 });
    assert!(matches!(steps.as_slice(), [Step::Stop]));
    assert!(s.step(Happening::Heard { message: None, t1: 0, t2: 0 }).is_empty());
    assert!(matches!(s.step(Happening::Gone).as_slice(), [Step::Stop]));
    let queued = s.step(Happening::Queued(FromHost::Added { title: "x".to_owned() }));
    assert!(matches!(&queued[..], [Step::Say(FromHost::Added { title })] if title == "x"));
}

#[test]
fn only_a_websocket_upgrade_counts() {
    assert!(upgrading(Some("websocket")));
    assert!(upgrading(Some("WebSocket")));
    assert!(!upgrading(Some("websockets")));
    assert!(!upgrading(Some("h2c")));
    assert!(!upgrading(None));
}

#[test]
fn requests_are_routed_to_the_page_the_socket_or_nowhere() {
    let mut limits = Limits::new();
    assert_eq!(route(&mut limits, 1, 0, true, "/c/204813", "204813", None, false), Answer::Page);
    assert_eq!(
        route(&mut limits, 1, 0, true, "/c/204813/ws", "204813", Some("websocket"), true),
        Answer::Upgrade
    );
    assert_eq!(
        route(&mut limits, 1, 0, true, "/c/204813/ws", "204813", Some("websocket"), false),
        Answer::BadRequest
    );
    assert_eq!(route(&mut limits, 1, 0, false, "/c/204813", "204813", None, false), Answer::NotFound);
    assert_eq!(limits.strikes(1), 1);
    assert_eq!(route(&mut limits, 1, 0, true, "/c/000000", "204813", None, false), Answer::NotFound);
    assert_eq!(route(&mut limits, 1, 0, true, "/c/204813/ws", "204813", None, true), Answer::NotFound);
    assert_eq!(limits.strikes(1), 3);
}

#[test]
fn a_peer_that_keeps_guessing_is_turned_away() {
    let mut limits = Limits::new();
    for _ in 0..STRIKES {
        assert_eq!(route(&mut limits, 7, 5, true, "/guess", "204813", None, false), Answer::NotFound);
    }
    assert_eq!(route(&mut limits, 7, 6, true, "/c/204813", "204813", None, false), Answer::TooMany);
    assert_eq!(route(&mut limits, 8, 6, true, "/c/204813", "204813", None, false), Answer::Page);
    assert_eq!(
        route(&mut limits, 7, 5 + WINDOW_MS, true, "/c/204813", "204813", None, false),
        Answer::Page
    );
}

fn hello_from(protocol: u32, accepts: Vec<Codec>) -> FromReceiver {
    FromReceiver::Hello {
        protocol,
        name: "Kitchen".to_owned(),
        native: true,
        code: "123456".to_owned(),
        device: "0000000000000000000000000000002a".to_owned(),
        accepts,
    }
}

#[test]
fn the_first_answer_refuses_closes_or_welcomes() {
    let at = "10.0.0.2".to_owned();
    let room = "Sonora".to_owned();
    let format = Format { rate: 48_000, channels: 2, codec: Codec::Pcm16 };
    let pcm = vec![Codec::Pcm16];

    let old = opening(hello_from(PROTOCOL + 1, pcm.clone()), &at, 0, Some(format), &room, 200, 7).unwrap();
    assert_eq!(old.say, FromHost::Refused { reason: Refusal::Protocol });
    assert!(old.joined.is_none());

    let deaf = opening(hello_from(PROTOCOL, vec![]), &at, 0, Some(format), &room, 200, 7).unwrap();
    assert_eq!(deaf.say, FromHost::Refused { reason: Refusal::Codec });
    assert!(deaf.joined.is_none());

    let full = opening(hello_from(PROTOCOL, pcm.clone()), &at, LISTENERS, Some(format), &room, 200, 7).unwrap();
    assert_eq!(full.say, FromHost::Refused { reason: Refusal::Full });
    assert!(full.joined.is_none());

    let silent = opening(hello_from(PROTOCOL, pcm.clone()), &at, 0, None, &room, 200, 7).unwrap();
    assert_eq!(silent.say, FromHost::Refused { reason: Refusal::Closed });
    assert!(silent.joined.is_none());

    let welcome = opening(hello_from(PROTOCOL, pcm.clone()), &at, 3, Some(format), &room, 200, 7).unwrap();
    assert_eq!(
        welcome.say,
        FromHost::Welcome { protocol: PROTOCOL, room: "Sonora".to_owned(), format, lead_ms: 200, origin: 7 }
    );
    let seated = welcome.joined.unwrap();
    assert_eq!(seated.name, "Kitchen");
    assert_eq!(seated.at, "10.0.0.2");
    assert_eq!(seated.device, "0000000000000000000000000000002a");
    assert!(seated.native);
    assert_eq!(seated.need, 0);

    assert!(opening(FromReceiver::Ping { t0: 1, need: 0 }, &at, 0, Some(format), &room, 200, 7).is_none());
}
