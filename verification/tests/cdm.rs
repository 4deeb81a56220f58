use std::io::Write;

use sonora::archive::ArchiveError;
use sonora::cdm::{find, less, newest, number, version, version_of, Found, Offer, Origin, Release, Settled};

fn found(path: &str, origin: Origin) -> Found {
    Found {
        path: path.to_owned(),
        origin,
    }
}

#[test]
fn a_version_is_numbers_and_dots() {
    assert_eq!(version("4.10.2830.0"), Some(vec![4, 10, 2830, 0]));
    assert_eq!(version("1.2"), Some(vec![1, 2]));
    assert_eq!(version("+1.2"), None);
    assert_eq!(version("18446744073709551615.1"), Some(vec![u64::MAX, 1]));
}

#[test]
fn anything_else_is_no_version() {
    assert_eq!(version("1"), None);
    assert_eq!(version(""), None);
    assert_eq!(version("1.x"), None);
    assert_eq!(version("1..2"), None);
    assert_eq!(version("1.2."), None);
    assert_eq!(version("-1.2"), None);
    assert_eq!(version("1.+"), None);
    assert_eq!(version("18446744073709551616.1"), None);
    assert_eq!(version("libwidevinecdm.so"), None);
    assert_eq!(version("4.10.2830.0\u{e9}"), None);
}

#[test]
fn a_number_reads_as_u64_from_str_does() {
    for text in ["0", "7", "007", "18446744073709551615", "", "+", "1a", " 1", "99999999999999999999"] {
        assert_eq!(number(text.as_bytes()), text.parse::<u64>().ok(), "{text}");
    }
}

#[test]
fn a_version_is_nothing_but_numbers_and_dots() {
    assert_eq!(number(b"+7"), None);
    assert_eq!(version("+4.10"), None);
    assert_eq!(version("4.+10"), None);
    assert_eq!(version("4.10.2830.0"), Some(vec![4, 10, 2830, 0]));
    assert_eq!(version("4"), None);
    assert_eq!(version("1..2"), None);
    assert_eq!(version("1.x"), None);
}

#[test]
fn the_deepest_version_in_a_path_wins() {
    let parts = |names: &[&str]| names.iter().map(|name| name.to_string()).collect::<Vec<_>>();
    assert_eq!(
        version_of(&parts(&["/", "home", "me", "widevine", "4.10.2830.0", "libwidevinecdm.so"])),
        vec![4, 10, 2830, 0]
    );
    assert_eq!(version_of(&parts(&["1.2", "x", "3.4", "lib.so"])), vec![3, 4]);
    assert_eq!(version_of(&parts(&["/", "opt", "lib.so"])), Vec::<u64>::new());
    assert_eq!(version_of(&Vec::new()), Vec::<u64>::new());
}

#[test]
fn versions_sort_number_by_number() {
    assert!(less(&vec![1, 2], &vec![1, 10]));
    assert!(less(&vec![1, 2], &vec![1, 2, 0]));
    assert!(less(&vec![], &vec![0]));
    assert!(!less(&vec![1, 2], &vec![1, 2]));
    assert!(!less(&vec![2], &vec![1, 9, 9]));
}

#[test]
fn the_newest_version_is_the_last_of_the_greatest() {
    assert_eq!(newest(&vec![vec![1, 2], vec![1, 10], vec![1, 2, 0]]), Some(1));
    assert_eq!(newest(&vec![vec![2], vec![2], vec![1]]), Some(1));
    assert_eq!(newest(&vec![vec![], vec![0]]), Some(1));
    assert_eq!(newest(&vec![]), None);
}

#[test]
fn the_first_module_found_is_kept_until_forgotten() {
    let mut settled = Settled::new();
    assert_eq!(find(&mut settled, None), None);
    assert_eq!(settled.known(), None);
    let first = found("/store/4.10/lib.so", Origin::Fetched);
    assert_eq!(find(&mut settled, Some(first.clone())), Some(first.clone()));
    let other = found("/opt/chrome/lib.so", Origin::Installed);
    assert_eq!(find(&mut settled, Some(other.clone())), Some(first.clone()));
    assert_eq!(settled.remember(other.clone()), first);
    settled.forget();
    assert_eq!(settled.known(), None);
    assert_eq!(settled.remember(other.clone()), other);
}

fn crx_with(entries: &[(&str, &[u8])]) -> Vec<u8> {
    let mut zip = Vec::new();
    let mut offsets = Vec::new();
    for (name, data) in entries {
        offsets.push(zip.len() as u32);
        zip.extend_from_slice(&[0x50, 0x4b, 0x03, 0x04]);
        zip.extend_from_slice(&[0; 22]);
        zip.extend_from_slice(&(name.len() as u16).to_le_bytes());
        zip.extend_from_slice(&0u16.to_le_bytes());
        zip.extend_from_slice(name.as_bytes());
        zip.extend_from_slice(data);
    }
    let directory = zip.len() as u32;
    for ((name, data), offset) in entries.iter().zip(&offsets) {
        zip.extend_from_slice(&[0x50, 0x4b, 0x01, 0x02]);
        zip.extend_from_slice(&[0; 6]);
        zip.extend_from_slice(&0u16.to_le_bytes());
        zip.extend_from_slice(&[0; 8]);
        zip.extend_from_slice(&(data.len() as u32).to_le_bytes());
        zip.extend_from_slice(&(data.len() as u32).to_le_bytes());
        zip.extend_from_slice(&(name.len() as u16).to_le_bytes());
        zip.extend_from_slice(&[0; 12]);
        zip.extend_from_slice(&offset.to_le_bytes());
        zip.extend_from_slice(name.as_bytes());
    }
    let size = zip.len() as u32 - directory;
    zip.extend_from_slice(&[0x50, 0x4b, 0x05, 0x06, 0, 0, 0, 0]);
    zip.extend_from_slice(&(entries.len() as u16).to_le_bytes());
    zip.extend_from_slice(&(entries.len() as u16).to_le_bytes());
    zip.extend_from_slice(&size.to_le_bytes());
    zip.extend_from_slice(&directory.to_le_bytes());
    zip.extend_from_slice(&0u16.to_le_bytes());
    let mut archive = b"Cr24".to_vec();
    archive.extend_from_slice(&3u32.to_le_bytes());
    archive.extend_from_slice(&2u32.to_le_bytes());
    archive.extend_from_slice(&[0xaa, 0xbb]);
    archive.write_all(&zip).unwrap();
    archive
}

fn release() -> Release {
    Release {
        version: "4.10.2830.0".to_owned(),
        size: 1,
        sha256: "00".to_owned(),
        urls: vec!["https://example.invalid/a.crx3".to_owned()],
    }
}

#[test]
fn an_offer_carries_the_terms_without_surrounding_space() {
    let archive = crx_with(&[("LICENSE", b"  Google terms\n\n")]);
    let offer = Offer::new(release(), archive.clone()).unwrap();
    assert_eq!(offer.license(), "Google terms");
    assert_eq!(offer.version(), "4.10.2830.0");
    assert_eq!(offer.archive(), archive.as_slice());
    assert_eq!(offer.release(), &release());
}

#[test]
fn an_archive_without_terms_makes_no_offer() {
    let archive = crx_with(&[("notes.json", b"{}")]);
    assert_eq!(
        Offer::new(release(), archive).err(),
        Some(ArchiveError::Missing)
    );
    assert_eq!(
        Offer::new(release(), b"PK".to_vec()).err(),
        Some(ArchiveError::NotCrx)
    );
}

#[test]
fn an_accepted_offer_shows_no_terms() {
    let offer = Offer::accepted(release(), vec![1, 2, 3]);
    assert_eq!(offer.license(), "");
    assert_eq!(offer.archive(), &[1, 2, 3]);
}
