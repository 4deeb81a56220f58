use sonora::wire::{Cap, Caps, FrameError, Header, HEADER};

#[test]
fn a_header_round_trips() {
    let header = Header {
        seq: 4_294_967_000,
        first_sample: 1 << 40,
    };
    let mut frame = Vec::new();
    header.write(&mut frame);
    assert_eq!(frame.len(), HEADER);
    assert_eq!(Header::read(&frame).unwrap(), header);
}

#[test]
fn a_frame_without_the_magic_is_refused() {
    let mut frame = vec![0u8; HEADER];
    frame[0..4].copy_from_slice(b"XXXX");
    assert!(Header::read(&frame).is_err());
}

#[test]
fn a_short_frame_is_refused_rather_than_panicking() {
    for len in 0..HEADER {
        assert!(Header::read(&vec![0u8; len]).is_err(), "{len}");
    }
}

#[test]
fn a_header_is_the_magic_then_little_endian_numbers() {
    let header = Header {
        seq: 0x0102_0304,
        first_sample: 0x1122_3344_5566_7788,
    };
    let mut frame = vec![9u8];
    header.write(&mut frame);
    assert_eq!(
        frame,
        vec![
            9, b'S', b'N', b'J', b'1', 0x04, 0x03, 0x02, 0x01, 0x88, 0x77, 0x66, 0x55, 0x44, 0x33,
            0x22, 0x11
        ]
    );
}

#[test]
fn a_header_reads_past_a_trailing_payload() {
    let header = Header {
        seq: 7,
        first_sample: 44_100,
    };
    let mut frame = Vec::new();
    header.write(&mut frame);
    frame.extend_from_slice(&[1, 2, 3, 4]);
    assert_eq!(Header::read(&frame), Ok(header));
}

#[test]
fn short_and_foreign_frames_are_told_apart() {
    assert_eq!(Header::read(&[0u8; 15]), Err(FrameError::Short));
    assert_eq!(Header::read(&[0u8; 16]), Err(FrameError::Foreign));
}

#[test]
fn every_cap_has_its_own_key_and_field() {
    let keys: Vec<&str> = Cap::all().iter().map(|cap| cap.key()).collect();
    assert_eq!(
        keys,
        vec!["jam-cap-add", "jam-cap-control", "jam-cap-browse", "jam-cap-favorite"]
    );
    for cap in Cap::all() {
        let mut caps = Caps::default();
        assert!(!cap.of(&caps));
        cap.set(&mut caps, true);
        assert!(cap.of(&caps));
        for other in Cap::all() {
            if other != cap {
                assert!(!other.of(&caps));
            }
        }
        cap.set(&mut caps, false);
        assert_eq!(caps, Caps::default());
    }
}
