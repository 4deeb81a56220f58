use std::io::Write;

use sonora::archive::{crx, entry, locate, matches_checksum, u16_at, u32_at, ArchiveError};

struct Item<'a> {
    name: &'a str,
    method: u16,
    data: Vec<u8>,
    size: u32,
}

fn deflated(data: &[u8]) -> Vec<u8> {
    let mut encoder =
        flate2::write::DeflateEncoder::new(Vec::new(), flate2::Compression::default());
    encoder.write_all(data).unwrap();
    encoder.finish().unwrap()
}

fn stored(name: &str, data: &[u8]) -> Item<'static> {
    Item {
        name: Box::leak(name.to_owned().into_boxed_str()),
        method: 0,
        data: data.to_vec(),
        size: data.len() as u32,
    }
}

fn zip(items: &[Item]) -> Vec<u8> {
    let mut out = Vec::new();
    let mut offsets = Vec::new();
    for item in items {
        offsets.push(out.len() as u32);
        out.extend_from_slice(&[0x50, 0x4b, 0x03, 0x04]);
        out.extend_from_slice(&20u16.to_le_bytes());
        out.extend_from_slice(&0u16.to_le_bytes());
        out.extend_from_slice(&item.method.to_le_bytes());
        out.extend_from_slice(&[0; 8]);
        out.extend_from_slice(&(item.data.len() as u32).to_le_bytes());
        out.extend_from_slice(&item.size.to_le_bytes());
        out.extend_from_slice(&(item.name.len() as u16).to_le_bytes());
        out.extend_from_slice(&3u16.to_le_bytes());
        out.extend_from_slice(item.name.as_bytes());
        out.extend_from_slice(&[7, 7, 7]);
        out.extend_from_slice(&item.data);
    }
    let directory = out.len() as u32;
    for (item, offset) in items.iter().zip(&offsets) {
        out.extend_from_slice(&[0x50, 0x4b, 0x01, 0x02]);
        out.extend_from_slice(&20u16.to_le_bytes());
        out.extend_from_slice(&20u16.to_le_bytes());
        out.extend_from_slice(&0u16.to_le_bytes());
        out.extend_from_slice(&item.method.to_le_bytes());
        out.extend_from_slice(&[0; 8]);
        out.extend_from_slice(&(item.data.len() as u32).to_le_bytes());
        out.extend_from_slice(&item.size.to_le_bytes());
        out.extend_from_slice(&(item.name.len() as u16).to_le_bytes());
        out.extend_from_slice(&2u16.to_le_bytes());
        out.extend_from_slice(&1u16.to_le_bytes());
        out.extend_from_slice(&[0; 8]);
        out.extend_from_slice(&offset.to_le_bytes());
        out.extend_from_slice(item.name.as_bytes());
        out.extend_from_slice(&[9, 9]);
        out.extend_from_slice(b"c");
    }
    let size = out.len() as u32 - directory;
    out.extend_from_slice(&[0x50, 0x4b, 0x05, 0x06, 0, 0, 0, 0]);
    out.extend_from_slice(&(items.len() as u16).to_le_bytes());
    out.extend_from_slice(&(items.len() as u16).to_le_bytes());
    out.extend_from_slice(&size.to_le_bytes());
    out.extend_from_slice(&directory.to_le_bytes());
    out.extend_from_slice(&4u16.to_le_bytes());
    out.extend_from_slice(b"note");
    out
}

fn wrapped(zip: &[u8], header: &[u8]) -> Vec<u8> {
    let mut out = b"Cr24".to_vec();
    out.extend_from_slice(&3u32.to_le_bytes());
    out.extend_from_slice(&(header.len() as u32).to_le_bytes());
    out.extend_from_slice(header);
    out.extend_from_slice(zip);
    out
}

#[test]
fn the_zip_comes_after_the_signed_header() {
    let inner = zip(&[stored("LICENSE", b"terms")]);
    let archive = wrapped(&inner, &[1, 2, 3, 4, 5]);
    assert_eq!(crx(&archive).unwrap(), inner.as_slice());
}

#[test]
fn what_is_not_a_crx3_is_refused() {
    assert_eq!(crx(b"PK\x03\x04rest"), Err(ArchiveError::NotCrx));
    assert_eq!(crx(b"Cr2"), Err(ArchiveError::NotCrx));
    let mut two = b"Cr24".to_vec();
    two.extend_from_slice(&2u32.to_le_bytes());
    two.extend_from_slice(&0u32.to_le_bytes());
    assert_eq!(crx(&two), Err(ArchiveError::Version(2)));
    assert_eq!(crx(b"Cr24\x03\x00"), Err(ArchiveError::Truncated));
    let mut cut = b"Cr24".to_vec();
    cut.extend_from_slice(&3u32.to_le_bytes());
    cut.extend_from_slice(&100u32.to_le_bytes());
    cut.extend_from_slice(&[0; 10]);
    assert_eq!(crx(&cut), Err(ArchiveError::HeaderCut));
}

#[test]
fn numbers_are_read_little_endian_and_never_past_the_end() {
    let bytes = [0x34, 0x12, 0x78, 0x56, 0xff];
    assert_eq!(u16_at(&bytes, 0), Ok(0x1234));
    assert_eq!(u32_at(&bytes, 0), Ok(0x5678_1234));
    assert_eq!(u32_at(&bytes, 1), Ok(0xff56_7812));
    assert_eq!(u16_at(&bytes, 4), Err(ArchiveError::Truncated));
    assert_eq!(u32_at(&bytes, 2), Err(ArchiveError::Truncated));
    assert_eq!(u32_at(&bytes, usize::MAX), Err(ArchiveError::Truncated));
}

#[test]
fn a_stored_entry_reads_back_as_written() {
    let archive = zip(&[
        stored("notes.json", b"{\"version\":\"4.10\"}"),
        stored("LICENSE", b"the terms"),
    ]);
    assert_eq!(entry(&archive, "LICENSE").unwrap(), b"the terms".to_vec());
    assert_eq!(
        entry(&archive, "notes.json").unwrap(),
        b"{\"version\":\"4.10\"}".to_vec()
    );
}

#[test]
fn a_deflated_entry_is_inflated() {
    let module = b"module bytes module bytes module bytes".repeat(20);
    let archive = zip(&[
        stored("LICENSE", b"terms"),
        Item {
            name: "_platform_specific/linux_x64/libwidevinecdm.so",
            method: 8,
            data: deflated(&module),
            size: module.len() as u32,
        },
    ]);
    assert_eq!(
        entry(&archive, "_platform_specific/linux_x64/libwidevinecdm.so").unwrap(),
        module
    );
}

#[test]
fn an_entry_that_is_not_there_is_missing() {
    let archive = zip(&[stored("LICENSE", b"terms")]);
    assert_eq!(entry(&archive, "LICENSE.txt"), Err(ArchiveError::Missing));
    assert_eq!(entry(&archive, "LICENS"), Err(ArchiveError::Missing));
}

#[test]
fn an_unknown_compression_is_refused() {
    let archive = zip(&[Item {
        name: "LICENSE",
        method: 12,
        data: b"bz".to_vec(),
        size: 2,
    }]);
    assert_eq!(entry(&archive, "LICENSE"), Err(ArchiveError::Method(12)));
}

#[test]
fn data_that_does_not_inflate_is_refused() {
    let archive = zip(&[Item {
        name: "LICENSE",
        method: 8,
        data: vec![0xff, 0xff, 0xff],
        size: 10,
    }]);
    assert_eq!(entry(&archive, "LICENSE"), Err(ArchiveError::Inflate));
}

#[test]
fn a_zip_without_a_directory_is_refused() {
    assert_eq!(entry(b"short", "LICENSE"), Err(ArchiveError::NoDirectory));
    assert_eq!(entry(&[0u8; 100], "LICENSE"), Err(ArchiveError::NoDirectory));
}

#[test]
fn a_directory_pointing_elsewhere_is_damaged() {
    let mut archive = zip(&[stored("LICENSE", b"terms")]);
    let end = archive.len() - 26;
    archive[end + 16] ^= 0x01;
    assert_eq!(entry(&archive, "LICENSE"), Err(ArchiveError::Damaged));
}

#[test]
fn an_entry_pointing_elsewhere_is_damaged() {
    let mut archive = zip(&[stored("LICENSE", b"terms")]);
    archive[0] = 0;
    assert_eq!(entry(&archive, "LICENSE"), Err(ArchiveError::EntryDamaged));
}

#[test]
fn an_entry_running_off_the_end_is_truncated() {
    let mut archive = zip(&[stored("LICENSE", b"terms")]);
    // The local header's extra length, made to reach past the end.
    archive[28] = 0xff;
    archive[29] = 0xff;
    assert_eq!(entry(&archive, "LICENSE"), Err(ArchiveError::EntryTruncated));
}

#[test]
fn locating_gives_where_the_data_is() {
    let archive = zip(&[stored("a", b"xy"), stored("LICENSE", b"terms")]);
    let found = locate(&archive, b"LICENSE").unwrap();
    assert_eq!(found.method, 0);
    assert_eq!(found.packed, 5);
    assert_eq!(found.size, 5);
    assert_eq!(&archive[found.start..found.start + found.packed], b"terms");
}

#[test]
fn the_checksum_is_lowercase_hex_sha256() {
    let abc = "ba7816bf8f01cfea414140de5dae2223b00361a396177a9cb410ff61f20015ad";
    assert!(matches_checksum(b"abc", abc));
    assert!(!matches_checksum(b"abc", &abc.to_ascii_uppercase()));
    assert!(!matches_checksum(b"abd", abc));
    assert!(!matches_checksum(b"abc", &abc[..62]));
    assert!(!matches_checksum(b"abc", ""));
}
