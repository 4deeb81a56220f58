use sonora::receiver::{device_id, fresh_hello, hello, pcm, Adjust, Follower, Greeting, Outcome, ReceiverEvent, MARGIN, SINK_LATENCY};
use sonora::wire::{Codec, Farewell, Format, FrameError, FromHost, FromReceiver, Header, MarkKind, Refusal, PROTOCOL};

fn welcome() -> Follower {
    let answer = FromHost::Welcome {
        protocol: 5,
        room: "Sonora".to_owned(),
        format: Format {
            rate: 1_000,
            channels: 1,
            codec: Codec::Pcm16,
        },
        lead_ms: 200,
        origin: 1_000,
    };
    match Follower::greeted(answer, 0) {
        Greeting::Welcome { room, follower } => {
            assert_eq!(room, "Sonora");
            follower
        }
        _ => panic!("the host welcomed"),
    }
}

fn frame(first_sample: u64, samples: usize) -> Vec<u8> {
    let mut out = Vec::new();
    Header { seq: 1, first_sample }.write(&mut out);
    out.extend(std::iter::repeat(0u8).take(samples * 2));
    out
}

#[test]
fn samples_are_little_endian_pairs() {
    assert_eq!(pcm(&[0x01, 0x00, 0xff, 0xff, 0x00, 0x80, 0x07]), vec![1, -1, -32768]);
    assert_eq!(pcm(&[]), Vec::<i16>::new());
}

#[test]
fn a_refusal_or_another_message_is_no_welcome() {
    assert!(matches!(
        Follower::greeted(FromHost::Refused { reason: Refusal::Full }, 0),
        Greeting::Refused(Refusal::Full)
    ));
    assert!(matches!(
        Follower::greeted(FromHost::Lead { lead_ms: 3 }, 0),
        Greeting::OutOfTurn
    ));
}

#[test]
fn a_new_listener_asks_for_latency_and_margin() {
    let follower = welcome();
    assert_eq!(follower.need(), SINK_LATENCY + MARGIN);
    assert_eq!(follower.origin, 1_000);
    assert_eq!(follower.lead, 200);
}

#[test]
fn a_frame_counts_its_samples_as_pushed() {
    let mut follower = welcome();
    let (samples, first) = follower.frame(&frame(0, 10)).unwrap().unwrap();
    assert_eq!(samples.len(), 10);
    assert_eq!(first, 0);
    assert_eq!(follower.pushed, 10);
    assert_eq!(follower.frame(&[1, 2, 3]), Err(FrameError::Short));
    assert_eq!(follower.pushed, 10);
}

#[test]
fn frames_in_a_quiet_stretch_are_skipped() {
    let mut follower = welcome();
    let outcome = follower.heard(
        FromHost::Mark {
            mark: MarkKind::Quiet,
            at: 500,
            origin: 2_000,
        },
        0,
    );
    assert!(matches!(outcome, Outcome::Quiet));
    assert_eq!(follower.origin, 2_000);
    assert_eq!(follower.frame(&frame(500, 4)).unwrap(), None);
    assert!(follower.frame(&frame(499, 4)).unwrap().is_some());
    let outcome = follower.heard(
        FromHost::Mark {
            mark: MarkKind::Cut,
            at: 0,
            origin: 3_000,
        },
        0,
    );
    assert!(matches!(outcome, Outcome::Flush));
    assert_eq!(follower.quiet_at, None);
    follower.flushed(7);
    assert_eq!(follower.pushed, 7);
}

#[test]
fn playback_on_schedule_holds_and_off_it_is_nudged_or_flushed() {
    let mut follower = welcome();
    follower.frame(&frame(0, 10)).unwrap();
    assert_eq!(follower.adjust(0, 10, 1_200, 10), Adjust::Hold);
    assert_eq!(follower.adjust(0, 10, 1_250, 100), Adjust::Nudge(1_000));
    assert_eq!(follower.slewed_at, 100);
    assert_eq!(follower.adjust(0, 10, 1_250, 120), Adjust::Hold);
    assert_eq!(follower.adjust(0, 10, 1_190, 150), Adjust::Nudge(-200));
    assert_eq!(follower.adjust(0, 10, 1_400, 300), Adjust::Flush);
    assert_eq!(follower.adjust(0, 0, 1_190, 300), Adjust::Hold);
}

#[test]
fn the_host_clock_and_lead_follow_its_messages() {
    let mut follower = welcome();
    assert!(matches!(follower.heard(FromHost::Lead { lead_ms: 350 }, 0), Outcome::Quiet));
    assert_eq!(follower.lead, 350);
    let outcome = follower.heard(FromHost::Pong { t0: 0, t1: 1_010, t2: 1_010 }, 20);
    assert!(matches!(outcome, Outcome::Quiet));
    assert_eq!(follower.clock.len(), 1);
    assert_eq!(follower.clock.offset(), 1_000);
    assert_eq!(follower.need(), SINK_LATENCY + 10 + MARGIN);
}

#[test]
fn the_end_of_the_jam_is_passed_on() {
    let mut follower = welcome();
    assert!(matches!(
        follower.heard(FromHost::Ended { reason: Farewell::HostLeft }, 0),
        Outcome::Leave(ReceiverEvent::Ended(Farewell::HostLeft))
    ));
    assert!(matches!(
        follower.heard(FromHost::Refused { reason: Refusal::Kicked }, 0),
        Outcome::Leave(ReceiverEvent::Refused(Refusal::Kicked))
    ));
    assert!(matches!(
        follower.heard(FromHost::Added { title: "x".to_owned() }, 0),
        Outcome::Quiet
    ));
}

#[test]
fn a_device_is_told_as_thirty_two_lowercase_hex_digits() {
    assert_eq!(device_id(0x1f), "0000000000000000000000000000001f");
    assert_eq!(device_id(0), "00000000000000000000000000000000");
    assert_eq!(device_id(u128::MAX), "ffffffffffffffffffffffffffffffff");
    assert_eq!(device_id(0xABCDEF0123456789), "0000000000000000abcdef0123456789");
    assert_eq!(device_id(12345).len(), 32);
}

#[test]
fn the_hello_names_the_listener_and_asks_for_pcm() {
    match hello("Kitchen", "123456", 0x2a) {
        FromReceiver::Hello { protocol, name, native, code, device, accepts } => {
            assert_eq!(protocol, PROTOCOL);
            assert_eq!(name, "Kitchen");
            assert!(native);
            assert_eq!(code, "123456");
            assert_eq!(device, "0000000000000000000000000000002a");
            assert_eq!(accepts, vec![Codec::Pcm16]);
        }
        _ => panic!("a hello is a hello"),
    }
}

#[test]
fn a_fresh_hello_draws_its_device() {
    match fresh_hello("Den", "000001") {
        FromReceiver::Hello { protocol, name, code, device, .. } => {
            assert_eq!(protocol, PROTOCOL);
            assert_eq!(name, "Den");
            assert_eq!(code, "000001");
            assert_eq!(device.len(), 32);
            assert!(device.chars().all(|c| c.is_ascii_digit() || ('a'..='f').contains(&c)));
        }
        _ => panic!("a hello is a hello"),
    }
}

#[test]
fn a_welcome_a_refusal_and_anything_else_tell_their_events() {
    let welcomed = Follower::greeted(
        FromHost::Welcome {
            protocol: 5,
            room: "Sonora".to_owned(),
            format: Format { rate: 1_000, channels: 1, codec: Codec::Pcm16 },
            lead_ms: 200,
            origin: 1_000,
        },
        0,
    );
    assert!(matches!(welcomed.event(), Some(ReceiverEvent::Welcomed(room)) if room == "Sonora"));
    assert!(!welcomed.failed());
    let refused = Follower::greeted(FromHost::Refused { reason: Refusal::Code }, 0);
    assert!(matches!(refused.event(), Some(ReceiverEvent::Refused(Refusal::Code))));
    assert!(!refused.failed());
    let other = Follower::greeted(FromHost::Lead { lead_ms: 3 }, 0);
    assert!(other.event().is_none());
    assert!(other.failed());
}
