use sonora::snapshot::{between, Controls, Lineup, Seat, Snapshot, Words};
use sonora::wire::{Caps, FromHost, Hit, Line, Pack, Repeat};

fn caps(control: bool) -> Caps {
    Caps {
        add: true,
        control,
        browse: false,
        favorite: false,
    }
}

fn seat(name: &str, device: &str) -> Seat {
    Seat {
        name: name.to_owned(),
        native: false,
        device: device.to_owned(),
    }
}

fn room(seats: &[(&str, &str)], grants: &[(&str, Caps)]) -> Snapshot {
    Snapshot {
        room: seats
            .iter()
            .map(|(name, device)| seat(name, device))
            .collect(),
        grants: grants
            .iter()
            .map(|(device, caps)| ((*device).to_owned(), *caps))
            .collect(),
        ..Snapshot::default()
    }
}

#[test]
fn a_first_snapshot_tells_the_listener_everything() {
    let now = room(&[("kitchen", "aa")], &[("aa", caps(true))]);
    let told = between(None, &now, "aa");

    assert!(matches!(told[0], FromHost::Grant { can } if can.control));
    assert!(told
        .iter()
        .any(|told| matches!(told, FromHost::Controls { .. })));
    assert!(told
        .iter()
        .any(|told| matches!(told, FromHost::Lineup { .. })));
    assert!(told.iter().any(|told| matches!(told, FromHost::Room { .. })));
}

#[test]
fn nothing_changed_says_nothing() {
    let now = room(&[("kitchen", "aa")], &[("aa", caps(true))]);
    assert!(between(Some(&now.clone()), &now, "aa").is_empty());
}

#[test]
fn a_revoked_grant_reaches_only_the_device_it_was_taken_from() {
    let was = room(
        &[("kitchen", "aa"), ("porch", "bb")],
        &[("aa", caps(true)), ("bb", caps(true))],
    );
    let mut now = was.clone();
    now.grant("bb", caps(false));

    assert!(between(Some(&was), &now, "aa").is_empty());
    let told = between(Some(&was), &now, "bb");
    assert!(matches!(told.as_slice(), [FromHost::Grant { can }] if !can.control));
}

#[test]
fn a_listener_without_a_grant_is_told_it_may_do_nothing() {
    let now = room(&[("kitchen", "aa")], &[]);
    let told = between(None, &now, "aa");
    assert!(matches!(told[0], FromHost::Grant { can } if can == Caps::default()));
}

#[test]
fn the_room_points_each_listener_at_its_own_seat() {
    let now = room(&[("kitchen", "aa"), ("porch", "bb")], &[]);
    let you = |device| {
        between(None, &now, device)
            .into_iter()
            .find_map(|told| match told {
                FromHost::Room { you, .. } => Some(you),
                _ => None,
            })
            .unwrap()
    };

    assert_eq!(you("aa"), 0);
    assert_eq!(you("bb"), 1);
    assert_eq!(you("gone"), -1);
}

fn pack(id: &str) -> Pack {
    Pack {
        id: id.to_owned(),
        name: format!("{id} list"),
        owner: "me".to_owned(),
        cover: None,
        tracks: 3,
        provider: "spotify".to_owned(),
    }
}

#[test]
fn a_first_snapshot_tells_six_things_in_order_when_there_are_packs_to_see() {
    let mut now = room(&[("kitchen", "aa")], &[]);
    now.grant(
        "aa",
        Caps {
            add: false,
            control: false,
            browse: true,
            favorite: false,
        },
    );
    now.packs = vec![pack("one")];
    let told = between(None, &now, "aa");
    assert_eq!(told.len(), 6);
    assert!(matches!(told[0], FromHost::Grant { can } if can.browse));
    assert!(matches!(told[1], FromHost::Controls { volume: 0, .. }));
    assert!(matches!(told[2], FromHost::Lineup { revision: 0, .. }));
    assert!(matches!(&told[3], FromHost::Packs { packs } if packs == &vec![pack("one")]));
    assert!(matches!(told[4], FromHost::Words { synced: false, .. }));
    assert!(matches!(&told[5], FromHost::Room { listeners, you: 0 } if listeners.len() == 1 && listeners[0].name == "kitchen"));
}

#[test]
fn packs_stay_hidden_without_browsing() {
    let mut now = room(&[("kitchen", "aa")], &[("aa", caps(true))]);
    now.packs = vec![pack("one"), pack("two")];
    let told = between(None, &now, "aa");
    assert_eq!(told.len(), 5);
    assert!(!told.iter().any(|told| matches!(told, FromHost::Packs { .. })));
}

#[test]
fn a_later_grant_stands_over_an_earlier_one() {
    let mut now = room(&[], &[("aa", caps(true))]);
    assert!(now.can("aa").control);
    now.grant("aa", caps(false));
    assert!(!now.can("aa").control);
    assert_eq!(now.can("zz"), Caps::default());
}

#[test]
fn only_what_changed_is_told() {
    let was = room(&[("kitchen", "aa")], &[("aa", caps(true))]);
    let mut now = was.clone();
    now.controls = Controls {
        volume: 40,
        shuffle: true,
        repeat: Repeat::All,
        can_next: true,
        can_previous: false,
        favorite: false,
    };
    now.words = Words {
        synced: true,
        lines: vec![Line {
            at: 1_000,
            text: "la".to_owned(),
        }],
    };
    let told = between(Some(&was), &now, "aa");
    assert_eq!(told.len(), 2);
    assert!(matches!(told[0], FromHost::Controls { volume: 40, shuffle: true, repeat: Repeat::All, .. }));
    assert!(matches!(&told[1], FromHost::Words { synced: true, lines } if lines.len() == 1));

    let mut later = now.clone();
    later.lineup = Lineup {
        revision: 2,
        total: 1,
        at: 0,
        rows: vec![Hit {
            id: "t".to_owned(),
            title: "Song".to_owned(),
            artist: "Band".to_owned(),
            album: "Record".to_owned(),
            cover: None,
            duration_ms: 1,
            provider: "spotify".to_owned(),
        }],
    };
    let told = between(Some(&now), &later, "aa");
    assert_eq!(told.len(), 1);
    assert!(matches!(&told[0], FromHost::Lineup { revision: 2, rows, .. } if rows[0].title == "Song"));
}
