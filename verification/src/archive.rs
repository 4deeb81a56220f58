//! Reading the Widevine module out of the `.crx3` that Google's update service hands out: a
//! signed header in front of an ordinary zip, whose entries are stored or deflated. The bytes
//! are read by offset, and every offset is checked against the archive's length first.

use std::io::Read;

use sha2::{Digest, Sha256};

use vstd::prelude::*;
use vstd::slice::slice_subrange;
use vstd::string::StringSliceAdditionalSpecFns;

verus! {

/// Why a file could not be read out of an archive.
#[derive(Clone, Copy, Debug, PartialEq, Eq, Structural)]
pub enum ArchiveError {
    /// The archive does not open with `Cr24`.
    NotCrx,
    /// The archive is a crx of another format version.
    Version(u32),
    /// A number was to be read past the end of the archive.
    Truncated,
    /// The archive ends inside its signed header.
    HeaderCut,
    /// The zip has no end-of-directory record where one can be.
    NoDirectory,
    /// A directory record is not where the directory says, or its name runs off the end.
    Damaged,
    /// The entry's local header is not where its directory record says.
    EntryDamaged,
    /// The entry's data runs off the end of the zip.
    EntryTruncated,
    /// The entry is compressed with a method other than storing or deflating.
    Method(u16),
    /// The deflated data does not inflate.
    Inflate,
    /// No entry has the name asked for.
    Missing,
}

/// Whether `bytes` holds `count` bytes from `from` on.
pub open spec fn within(bytes: Seq<u8>, from: int, count: int) -> bool {
    0 <= from && 0 <= count && from + count <= bytes.len()
}

/// The little-endian `u16` at `at`, when the bytes hold one there.
pub open spec fn le16(bytes: Seq<u8>, at: int) -> Option<u16> {
    if within(bytes, at, 2) {
        Some((bytes[at] + 256 * bytes[at + 1]) as u16)
    } else {
        None
    }
}

/// The little-endian `u32` at `at`, when the bytes hold one there.
pub open spec fn le32(bytes: Seq<u8>, at: int) -> Option<u32> {
    if within(bytes, at, 4) {
        Some(
            (bytes[at] + 256 * bytes[at + 1] + 65536 * bytes[at + 2] + 16777216 * bytes[at + 3]) as u32,
        )
    } else {
        None
    }
}

/// Whether the bytes from `at` on open with `mark`.
pub open spec fn opens_with(bytes: Seq<u8>, at: int, mark: Seq<u8>) -> bool {
    within(bytes, at, mark.len() as int) && bytes.subrange(at, at + mark.len()) == mark
}

/// `Cr24`, the opening of every crx.
pub open spec fn crx_mark() -> Seq<u8> {
    seq![0x43u8, 0x72u8, 0x32u8, 0x34u8]
}

/// The mark of the zip's end-of-directory record.
pub open spec fn end_mark() -> Seq<u8> {
    seq![0x50u8, 0x4bu8, 0x05u8, 0x06u8]
}

/// The mark of a directory record.
pub open spec fn central_mark() -> Seq<u8> {
    seq![0x50u8, 0x4bu8, 0x01u8, 0x02u8]
}

/// The mark of an entry's local header.
pub open spec fn local_mark() -> Seq<u8> {
    seq![0x50u8, 0x4bu8, 0x03u8, 0x04u8]
}

/// The zip inside a crx3: after the magic, the format version and the length of the signed
/// header, and after the header itself.
pub open spec fn crx_body(archive: Seq<u8>) -> Result<Seq<u8>, ArchiveError> {
    if !opens_with(archive, 0, crx_mark()) {
        Err(ArchiveError::NotCrx)
    } else {
        match le32(archive, 4) {
            None => Err(ArchiveError::Truncated),
            Some(format) => if format != 3 {
                Err(ArchiveError::Version(format))
            } else {
                match le32(archive, 8) {
                    None => Err(ArchiveError::Truncated),
                    Some(header) => if 12 + header <= archive.len() {
                        Ok(archive.subrange(12 + header, archive.len() as int))
                    } else {
                        Err(ArchiveError::HeaderCut)
                    },
                }
            },
        }
    }
}

/// The last end-of-directory record at or below `at` and at or above `stop`.
pub open spec fn end_from(zip: Seq<u8>, at: int, stop: int) -> Option<int>
    decreases at - stop,
{
    if at < stop {
        None
    } else if opens_with(zip, at, end_mark()) {
        Some(at)
    } else if at == stop {
        None
    } else {
        end_from(zip, at - 1, stop)
    }
}

/// Where the end-of-directory record is: searched from the last place one fits, 22 bytes
/// before the end, back over at most 65536 places, the most a trailing comment can push it.
pub open spec fn end_record(zip: Seq<u8>) -> Option<int> {
    if zip.len() < 22 {
        None
    } else {
        let last = zip.len() - 22;
        end_from(zip, last, if last > 65535 { last - 65535 } else { 0 })
    }
}

/// Where an entry's data is: its method, where the data starts and how many bytes it has, and
/// how long it is once inflated.
pub struct Stored {
    pub method: u16,
    pub start: usize,
    pub packed: usize,
    pub size: usize,
}

/// An entry's data, found through its local header at `local`.
pub open spec fn stored_at(zip: Seq<u8>, method: u16, packed: int, size: int, local: int) -> Result<
    (u16, int, int, int),
    ArchiveError,
> {
    if !opens_with(zip, local, local_mark()) {
        Err(ArchiveError::EntryDamaged)
    } else if !within(zip, local, 30) {
        Err(ArchiveError::Truncated)
    } else {
        let start = local + 30 + le16(zip, local + 26).unwrap() + le16(zip, local + 28).unwrap();
        if within(zip, start, packed) {
            Ok((method, start, packed, size))
        } else {
            Err(ArchiveError::EntryTruncated)
        }
    }
}

/// The directory walked from the record at `at`, with `left` records to go, for the entry
/// called `wanted`.
pub open spec fn walk(zip: Seq<u8>, wanted: Seq<u8>, at: int, left: int) -> Result<
    (u16, int, int, int),
    ArchiveError,
>
    decreases left,
{
    if left <= 0 {
        Err(ArchiveError::Missing)
    } else if !opens_with(zip, at, central_mark()) {
        Err(ArchiveError::Damaged)
    } else if !within(zip, at, 46) {
        Err(ArchiveError::Truncated)
    } else {
        let name = le16(zip, at + 28).unwrap() as int;
        if !within(zip, at + 46, name) {
            Err(ArchiveError::Damaged)
        } else if zip.subrange(at + 46, at + 46 + name) == wanted {
            stored_at(
                zip,
                le16(zip, at + 10).unwrap(),
                le32(zip, at + 20).unwrap() as int,
                le32(zip, at + 24).unwrap() as int,
                le32(zip, at + 42).unwrap() as int,
            )
        } else {
            walk(
                zip,
                wanted,
                at + 46 + name + le16(zip, at + 30).unwrap() + le16(zip, at + 32).unwrap(),
                left - 1,
            )
        }
    }
}

/// Where the entry called `wanted` is stored: the end record gives the number of directory
/// records and where the first one is.
pub open spec fn locate_spec(zip: Seq<u8>, wanted: Seq<u8>) -> Result<(u16, int, int, int), ArchiveError> {
    match end_record(zip) {
        None => Err(ArchiveError::NoDirectory),
        Some(end) => walk(
            zip,
            wanted,
            le32(zip, end + 16).unwrap() as int,
            le16(zip, end + 10).unwrap() as int,
        ),
    }
}

/// What deflated `data` inflates to, as flate2's raw deflate decoder reads it; nothing when it
/// refuses the data.
pub uninterp spec fn inflated(data: Seq<u8>) -> Option<Seq<u8>>;

/// The contents of the entry called `wanted`: its data as stored, or inflated.
pub open spec fn entry_spec(zip: Seq<u8>, wanted: Seq<u8>) -> Result<Seq<u8>, ArchiveError> {
    match locate_spec(zip, wanted) {
        Err(error) => Err(error),
        Ok((method, start, packed, _size)) => {
            let data = zip.subrange(start, start + packed);
            if method == 0 {
                Ok(data)
            } else if method == 8 {
                match inflated(data) {
                    Some(out) => Ok(out),
                    None => Err(ArchiveError::Inflate),
                }
            } else {
                Err(ArchiveError::Method(method))
            }
        },
    }
}

/// Whether `bytes` holds `count` bytes from `from` on.
fn fits(bytes: &[u8], from: usize, count: usize) -> (r: bool)
    ensures
        r == within(bytes@, from as int, count as int),
        bytes@.len() <= usize::MAX,
{
    from <= bytes.len() && count <= bytes.len() - from
}

/// The little-endian `u16` at `at`, which the bytes hold.
fn read16(bytes: &[u8], at: usize) -> (r: u16)
    requires
        within(bytes@, at as int, 2),
    ensures
        le16(bytes@, at as int) == Some(r),
{
    let _length = bytes.len();
    bytes[at] as u16 + (bytes[at + 1] as u16) * 256
}

/// The little-endian `u32` at `at`, which the bytes hold.
fn read32(bytes: &[u8], at: usize) -> (r: u32)
    requires
        within(bytes@, at as int, 4),
    ensures
        le32(bytes@, at as int) == Some(r),
{
    let _length = bytes.len();
    bytes[at] as u32 + (bytes[at + 1] as u32) * 256 + (bytes[at + 2] as u32) * 65536 + (bytes[at
        + 3] as u32) * 16777216
}

/// The little-endian `u16` at `at`.
pub fn u16_at(bytes: &[u8], at: usize) -> (r: Result<u16, ArchiveError>)
    ensures
        match r {
            Ok(value) => le16(bytes@, at as int) == Some(value),
            Err(error) => le16(bytes@, at as int) is None && error == ArchiveError::Truncated,
        },
{
    if fits(bytes, at, 2) {
        Ok(read16(bytes, at))
    } else {
        Err(ArchiveError::Truncated)
    }
}

/// The little-endian `u32` at `at`.
pub fn u32_at(bytes: &[u8], at: usize) -> (r: Result<u32, ArchiveError>)
    ensures
        match r {
            Ok(value) => le32(bytes@, at as int) == Some(value),
            Err(error) => le32(bytes@, at as int) is None && error == ArchiveError::Truncated,
        },
{
    if fits(bytes, at, 4) {
        Ok(read32(bytes, at))
    } else {
        Err(ArchiveError::Truncated)
    }
}

/// Whether the bytes from `at` on open with `mark`.
fn opens(bytes: &[u8], at: usize, mark: &[u8]) -> (r: bool)
    ensures
        r == opens_with(bytes@, at as int, mark@),
{
    if !fits(bytes, at, mark.len()) {
        return false;
    }
    let mut i: usize = 0;
    while i < mark.len()
        invariant
            within(bytes@, at as int, mark@.len() as int),
            bytes@.len() <= usize::MAX,
            i <= mark@.len(),
            forall|j: int| 0 <= j < i ==> bytes@[at + j] == mark@[j],
        decreases mark@.len() - i,
    {
        if bytes[at + i] != mark[i] {
            assert(bytes@.subrange(at as int, at + mark@.len())[i as int] != mark@[i as int]);
            return false;
        }
        i = i + 1;
    }
    assert(bytes@.subrange(at as int, at + mark@.len()) =~= mark@);
    true
}

/// The zip inside a crx3.
pub fn crx(archive: &[u8]) -> (r: Result<&[u8], ArchiveError>)
    ensures
        match r {
            Ok(zip) => crx_body(archive@) == Ok::<Seq<u8>, ArchiveError>(zip@),
            Err(error) => crx_body(archive@) == Err::<Seq<u8>, ArchiveError>(error),
        },
{
    let mark: [u8; 4] = [0x43, 0x72, 0x32, 0x34];
    assert(mark@ =~= crx_mark());
    if !opens(archive, 0, &mark) {
        return Err(ArchiveError::NotCrx);
    }
    let format = match u32_at(archive, 4) {
        Ok(format) => format,
        Err(error) => return Err(error),
    };
    if format != 3 {
        return Err(ArchiveError::Version(format));
    }
    let header = match u32_at(archive, 8) {
        Ok(header) => header as usize,
        Err(error) => return Err(error),
    };
    if !fits(archive, 12, header) {
        return Err(ArchiveError::HeaderCut);
    }
    Ok(slice_subrange(archive, 12 + header, archive.len()))
}

/// Where the end-of-directory record is.
fn find_end(zip: &[u8]) -> (r: Option<usize>)
    ensures
        match r {
            Some(at) => end_record(zip@) == Some(at as int) && at + 22 <= zip@.len(),
            None => end_record(zip@) is None,
        },
{
    if zip.len() < 22 {
        return None;
    }
    let mark: [u8; 4] = [0x50, 0x4b, 0x05, 0x06];
    assert(mark@ =~= end_mark());
    let last = zip.len() - 22;
    let stop = if last > 65535 {
        last - 65535
    } else {
        0
    };
    let mut at = last;
    loop
        invariant
            stop <= at <= last,
            last == zip@.len() - 22,
            mark@ == end_mark(),
            end_record(zip@) == end_from(zip@, at as int, stop as int),
        decreases at - stop,
    {
        if opens(zip, at, &mark) {
            return Some(at);
        }
        if at == stop {
            return None;
        }
        at = at - 1;
    }
}

/// Whether the `count` bytes from `from` on spell `wanted`.
fn names(zip: &[u8], from: usize, count: usize, wanted: &[u8]) -> (r: bool)
    requires
        within(zip@, from as int, count as int),
    ensures
        r == (zip@.subrange(from as int, from + count) == wanted@),
{
    let _length = zip.len();
    if count != wanted.len() {
        assert(zip@.subrange(from as int, from + count).len() != wanted@.len());
        return false;
    }
    let mut i: usize = 0;
    while i < count
        invariant
            within(zip@, from as int, count as int),
            zip@.len() <= usize::MAX,
            count == wanted@.len(),
            i <= count,
            forall|j: int| 0 <= j < i ==> zip@[from + j] == wanted@[j],
        decreases count - i,
    {
        if zip[from + i] != wanted[i] {
            assert(zip@.subrange(from as int, from + count)[i as int] != wanted@[i as int]);
            return false;
        }
        i = i + 1;
    }
    assert(zip@.subrange(from as int, from + count) =~= wanted@);
    true
}

/// An entry's data, through its local header.
fn stored(zip: &[u8], method: u16, packed: usize, size: usize, local: usize) -> (r: Result<
    Stored,
    ArchiveError,
>)
    ensures
        match r {
            Ok(found) => stored_at(zip@, method, packed as int, size as int, local as int) == Ok::<
                (u16, int, int, int),
                ArchiveError,
            >((found.method, found.start as int, found.packed as int, found.size as int))
                && found.start + found.packed <= zip@.len(),
            Err(error) => stored_at(zip@, method, packed as int, size as int, local as int) == Err::<
                (u16, int, int, int),
                ArchiveError,
            >(error),
        },
{
    let mark: [u8; 4] = [0x50, 0x4b, 0x03, 0x04];
    assert(mark@ =~= local_mark());
    if !opens(zip, local, &mark) {
        return Err(ArchiveError::EntryDamaged);
    }
    if !fits(zip, local, 30) {
        return Err(ArchiveError::Truncated);
    }
    let name = read16(zip, local + 26) as usize;
    let extra = read16(zip, local + 28) as usize;
    let from = local + 30;
    if !fits(zip, from, name) {
        return Err(ArchiveError::EntryTruncated);
    }
    let from = from + name;
    if !fits(zip, from, extra) {
        return Err(ArchiveError::EntryTruncated);
    }
    let start = from + extra;
    if !fits(zip, start, packed) {
        return Err(ArchiveError::EntryTruncated);
    }
    Ok(Stored { method, start, packed, size })
}

/// Where the entry called `wanted` is stored in the zip.
pub fn locate(zip: &[u8], wanted: &[u8]) -> (r: Result<Stored, ArchiveError>)
    ensures
        match r {
            Ok(found) => locate_spec(zip@, wanted@) == Ok::<(u16, int, int, int), ArchiveError>(
                (found.method, found.start as int, found.packed as int, found.size as int),
            ) && found.start + found.packed <= zip@.len(),
            Err(error) => locate_spec(zip@, wanted@) == Err::<(u16, int, int, int), ArchiveError>(
                error,
            ),
        },
{
    let _length = zip.len();
    let end = match find_end(zip) {
        Some(end) => end,
        None => return Err(ArchiveError::NoDirectory),
    };
    let mut left = read16(zip, end + 10) as usize;
    let mut at = read32(zip, end + 16) as usize;
    let mark: [u8; 4] = [0x50, 0x4b, 0x01, 0x02];
    assert(mark@ =~= central_mark());
    let _length = zip.len();
    while left > 0
        invariant
            mark@ == central_mark(),
            zip@.len() <= usize::MAX,
            locate_spec(zip@, wanted@) == walk(zip@, wanted@, at as int, left as int),
        decreases left,
    {
        if !opens(zip, at, &mark) {
            return Err(ArchiveError::Damaged);
        }
        if !fits(zip, at, 46) {
            return Err(ArchiveError::Truncated);
        }
        let method = read16(zip, at + 10);
        let packed = read32(zip, at + 20) as usize;
        let size = read32(zip, at + 24) as usize;
        let name = read16(zip, at + 28) as usize;
        let extra = read16(zip, at + 30) as usize;
        let comment = read16(zip, at + 32) as usize;
        let local = read32(zip, at + 42) as usize;
        if !fits(zip, at + 46, name) {
            return Err(ArchiveError::Damaged);
        }
        if names(zip, at + 46, name, wanted) {
            return stored(zip, method, packed, size, local);
        }
        let base = at + 46 + name;
        let ghost next = base + extra + comment;
        at = match base.checked_add(extra + comment) {
            Some(next) => next,
            None => usize::MAX,
        };
        left = left - 1;
        assert(walk(zip@, wanted@, next, left as int) == walk(zip@, wanted@, at as int, left as int));
    }
    Err(ArchiveError::Missing)
}

/// Inflates raw deflate data with flate2's `DeflateDecoder`, read to the end; `size` is only
/// the room made for the result beforehand. The contract names the result: what the decoder
/// gives for these bytes, or nothing when it refuses them.
#[verifier::external_body]
fn inflate(data: &[u8], size: usize) -> (r: Result<Vec<u8>, ArchiveError>)
    ensures
        match r {
            Ok(out) => inflated(data@) == Some(out@),
            Err(error) => inflated(data@) is None && error == ArchiveError::Inflate,
        },
{
    let mut out = Vec::with_capacity(size);
    match flate2::read::DeflateDecoder::new(data).read_to_end(&mut out) {
        Ok(_) => Ok(out),
        Err(_) => Err(ArchiveError::Inflate),
    }
}

/// The contents of the entry called `wanted`, by its full name in the archive. Stored and
/// deflated entries are understood, which is every entry Google writes.
pub fn entry(zip: &[u8], wanted: &str) -> (r: Result<Vec<u8>, ArchiveError>)
    ensures
        match r {
            Ok(contents) => entry_spec(zip@, wanted.spec_bytes()) == Ok::<Seq<u8>, ArchiveError>(
                contents@,
            ),
            Err(error) => entry_spec(zip@, wanted.spec_bytes()) == Err::<Seq<u8>, ArchiveError>(
                error,
            ),
        },
{
    let _length = zip.len();
    let found = match locate(zip, wanted.as_bytes()) {
        Ok(found) => found,
        Err(error) => return Err(error),
    };
    let data = slice_subrange(zip, found.start, found.start + found.packed);
    if found.method == 0 {
        let mut out: Vec<u8> = Vec::new();
        let mut i: usize = 0;
        while i < data.len()
            invariant
                i <= data@.len(),
                out@ == data@.subrange(0, i as int),
            decreases data@.len() - i,
        {
            out.push(data[i]);
            i = i + 1;
            assert(out@ =~= data@.subrange(0, i as int));
        }
        assert(data@.subrange(0, data@.len() as int) =~= data@);
        Ok(out)
    } else if found.method == 8 {
        inflate(data, found.size)
    } else {
        Err(ArchiveError::Method(found.method))
    }
}

/// The SHA-256 digest of `bytes`, as sha2 computes it.
pub uninterp spec fn sha256_of(bytes: Seq<u8>) -> Seq<u8>;

/// The SHA-256 digest of `bytes`, with sha2's `Sha256::digest`. The contract names the result
/// and claims nothing else of it.
#[verifier::external_body]
fn digest(bytes: &[u8]) -> (r: Vec<u8>)
    ensures
        r@ == sha256_of(bytes@),
{
    Sha256::digest(bytes).to_vec()
}

/// The lowercase hex digit for `n`, below 16.
pub open spec fn hex_digit(n: int) -> u8 {
    if n < 10 {
        (48 + n) as u8
    } else {
        (87 + n) as u8
    }
}

/// `bytes` in lowercase hex, two digits a byte, the high half first.
pub open spec fn hex_of(bytes: Seq<u8>) -> Seq<u8> {
    Seq::new(
        2 * bytes.len(),
        |i: int|
            if i % 2 == 0 {
                hex_digit(bytes[i / 2] as int / 16)
            } else {
                hex_digit(bytes[i / 2] as int % 16)
            },
    )
}

/// The lowercase hex digit for `n`.
fn hex(n: u8) -> (r: u8)
    requires
        n < 16,
    ensures
        r == hex_digit(n as int),
{
    if n < 10 {
        48 + n
    } else {
        87 + n
    }
}

/// Whether an archive is the one announced: its SHA-256 written in lowercase hex is `sha256`.
pub fn matches_checksum(archive: &[u8], sha256: &str) -> (r: bool)
    ensures
        r == (hex_of(sha256_of(archive@)) == sha256.spec_bytes()),
{
    let sum = digest(archive);
    let announced = sha256.as_bytes();
    if announced.len() / 2 != sum.len() || announced.len() % 2 != 0 {
        assert(hex_of(sum@).len() != announced@.len());
        return false;
    }
    let mut i: usize = 0;
    while i < sum.len()
        invariant
            i <= sum@.len(),
            announced@.len() == 2 * sum@.len(),
            announced@.len() <= usize::MAX,
            sum@ == sha256_of(archive@),
            announced@ == sha256.spec_bytes(),
            forall|j: int| 0 <= j < 2 * i ==> #[trigger] hex_of(sum@)[j] == announced@[j],
        decreases sum@.len() - i,
    {
        let high = hex(sum[i] / 16);
        let low = hex(sum[i] % 16);
        assert(hex_of(sum@)[2 * i as int] == high);
        assert(hex_of(sum@)[2 * i + 1] == low);
        if announced[2 * i] != high {
            assert(hex_of(sum@)[2 * i as int] != announced@[2 * i as int]);
            return false;
        }
        if announced[2 * i + 1] != low {
            assert(hex_of(sum@)[2 * i + 1] != announced@[2 * i + 1]);
            return false;
        }
        i = i + 1;
    }
    assert(hex_of(sum@) =~= announced@);
    true
}

} // verus!
