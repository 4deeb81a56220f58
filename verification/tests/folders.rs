use sonora::folders::{add_folders, overlaps, remove_folder};
use sonora::network::{probe_wait, Network};

fn folder(path: &str) -> Vec<String> {
    path.split('/').filter(|part| !part.is_empty()).map(str::to_owned).collect()
}

#[test]
fn a_folder_overlaps_itself_and_what_it_holds() {
    assert!(overlaps(&folder("/music"), &folder("/music")));
    assert!(overlaps(&folder("/music"), &folder("/music/rock")));
    assert!(overlaps(&folder("/music/rock"), &folder("/music")));
    assert!(!overlaps(&folder("/music/rock"), &folder("/music/jazz")));
    assert!(!overlaps(&folder("/music"), &folder("/musical")));
}

#[test]
fn overlapping_folders_are_refused() {
    let listed = vec![folder("/music")];
    let added = add_folders(
        &listed,
        vec![folder("/music/rock"), folder("/books"), folder("/books/audio")],
    );
    assert_eq!(added, Some(vec![folder("/music"), folder("/books")]));
    assert_eq!(add_folders(&listed, vec![folder("/music/jazz")]), None);
    assert_eq!(add_folders(&listed, vec![]), None);
}

#[test]
fn removing_a_folder_not_listed_changes_nothing() {
    let listed = vec![folder("/music"), folder("/books")];
    assert_eq!(remove_folder(&listed, &folder("/music")), Some(vec![folder("/books")]));
    assert_eq!(remove_folder(&listed, &folder("/music/rock")), None);
}

#[test]
fn the_checks_slow_down_and_then_repeat() {
    let waits: Vec<u64> = (0..6).map(probe_wait).collect();
    assert_eq!(waits, vec![3000, 5000, 10_000, 30_000, 30_000, 30_000]);
}

#[test]
fn only_a_lost_connection_puts_the_app_offline_once() {
    let mut network = Network::new();
    assert!(!network.failed(false));
    assert!(!network.lost);
    assert!(network.failed(true));
    assert!(!network.failed(true));
    assert!(network.found());
    assert!(!network.found());
    assert!(!network.lost);
}
