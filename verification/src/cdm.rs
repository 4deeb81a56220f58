//! Which Widevine CDM the player uses: the versions module folders carry, the newest of them,
//! the one the process settled on, and what the update service offered.

use vstd::prelude::*;
use vstd::string::StringSliceAdditionalSpecFns;
use vstd::utf8::encode_utf8;

use crate::archive::{crx, crx_body, entry, entry_spec, ArchiveError};
use crate::json::{
    as_str, as_u64, get, get_field, get_item, lemma_values_of, nth, parse, parsed, str_of, u64_of,
    value_of, values_of, Json, JsonValue,
};
use crate::text::{chars_of, string_of, trim, trimmed};
use crate::track::reads;
use crate::webview::{ascii_lower, stop_at};

verus! {

/// How a CDM was come by.
#[derive(Clone, Copy, Debug, PartialEq, Eq, Structural)]
pub enum Origin {
    /// Named by `SONORA_WIDEVINE_CDM`.
    Configured,
    /// A copy a browser on this machine already had.
    Installed,
    /// Fetched from Google's update service into Sonora's own store.
    Fetched,
}

/// A CDM on disk and where it came from.
#[derive(Clone, Debug, PartialEq, Eq)]
pub struct Found {
    pub path: String,
    pub origin: Origin,
}

/// A found CDM as a plain value.
pub struct FoundView {
    pub path: Seq<char>,
    pub origin: Origin,
}

impl View for Found {
    type V = FoundView;

    open spec fn view(&self) -> FoundView {
        FoundView { path: self.path@, origin: self.origin }
    }
}

impl Found {
    /// A copy, field for field.
    pub fn copy(&self) -> (r: Found)
        ensures
            r@ == self@,
    {
        Found { path: self.path.clone(), origin: self.origin }
    }
}

/// An optional found CDM as a plain value.
pub open spec fn found_of(found: Option<Found>) -> Option<FoundView> {
    match found {
        Some(found) => Some(found@),
        None => None,
    }
}

/// The CDM this process settled on. Only a search that found something is remembered, so with
/// nothing found the next search looks again.
pub struct Settled {
    found: Option<Found>,
}

impl Settled {
    /// What the process has settled on.
    pub closed spec fn held(&self) -> Option<FoundView> {
        found_of(self.found)
    }

    /// Settled on nothing yet.
    pub fn new() -> (r: Settled)
        ensures
            r.held() is None,
    {
        Settled { found: None }
    }

    /// The CDM settled on, if any.
    pub fn known(&self) -> (r: Option<Found>)
        ensures
            found_of(r) == self.held(),
    {
        match &self.found {
            Some(found) => Some(found.copy()),
            None => None,
        }
    }

    /// Settles on `found` unless the process has settled already, and answers with what it is
    /// settled on.
    pub fn remember(&mut self, found: Found) -> (r: Found)
        ensures
            final(self).held() == Some(r@),
            r@ == (match old(self).held() {
                Some(held) => held,
                None => found@,
            }),
    {
        match &self.found {
            Some(held) => held.copy(),
            None => {
                let kept = found.copy();
                self.found = Some(found);
                kept
            },
        }
    }

    /// Forgets the CDM settled on, so that the next search starts over.
    pub fn forget(&mut self)
        ensures
            final(self).held() is None,
    {
        self.found = None;
    }
}

/// The CDM the process uses: the one it settled on, else what a search found, which it then
/// settles on; nothing when it has none and the search found none.
pub fn find(settled: &mut Settled, searched: Option<Found>) -> (r: Option<Found>)
    ensures
        found_of(r) == (match old(settled).held() {
            Some(held) => Some(held),
            None => found_of(searched),
        }),
        final(settled).held() == found_of(r),
{
    if let Some(found) = settled.known() {
        return Some(found);
    }
    match searched {
        Some(found) => Some(settled.remember(found)),
        None => None,
    }
}

/// The pieces of `text` between dots, as `str::split('.')` gives them: one more than there
/// are dots, empty ones included.
pub open spec fn pieces(text: Seq<u8>) -> Seq<Seq<u8>>
    decreases text.len(),
{
    if text.len() == 0 {
        seq![Seq::empty()]
    } else {
        let before = pieces(text.drop_last());
        if text.last() == 46 {
            before.push(Seq::empty())
        } else {
            before.update(before.len() - 1, before.last().push(text.last()))
        }
    }
}

/// Whether `b` is an ASCII digit.
pub open spec fn is_digit(b: u8) -> bool {
    48 <= b <= 57
}

/// The number that the decimal digits `digits` write.
pub open spec fn digits_value(digits: Seq<u8>) -> int
    decreases digits.len(),
{
    if digits.len() == 0 {
        0
    } else {
        digits_value(digits.drop_last()) * 10 + (digits.last() - 48)
    }
}

/// A piece as a number: at least one decimal digit and nothing else, writing a number no
/// larger than `u64::MAX`.
pub open spec fn number_of(piece: Seq<u8>) -> Option<u64> {
    let digits = piece;
    if digits.len() > 0 && (forall|i: int| 0 <= i < digits.len() ==> is_digit(#[trigger] digits[i]))
        && digits_value(digits) <= u64::MAX {
        Some(digits_value(digits) as u64)
    } else {
        None
    }
}

/// A folder name that is nothing but numbers and dots, at least two numbers, as the numbers.
pub open spec fn version_spec(name: Seq<u8>) -> Option<Seq<u64>> {
    let parts = pieces(name);
    if parts.len() > 1 && (forall|i: int| 0 <= i < parts.len() ==> #[trigger] number_of(parts[i]) is Some) {
        Some(parts.map_values(|part: Seq<u8>| number_of(part).unwrap()))
    } else {
        None
    }
}

/// `pieces` never gives nothing.
pub proof fn lemma_pieces_len(text: Seq<u8>)
    ensures
        pieces(text).len() >= 1,
    decreases text.len(),
{
    if text.len() > 0 {
        lemma_pieces_len(text.drop_last());
    }
}

/// A longer run of digits writes no smaller a number.
pub proof fn lemma_digits_grow(digits: Seq<u8>, upto: int)
    requires
        0 <= upto <= digits.len(),
        forall|i: int| 0 <= i < digits.len() ==> is_digit(#[trigger] digits[i]),
    ensures
        digits_value(digits.subrange(0, upto)) <= digits_value(digits),
        0 <= digits_value(digits),
    decreases digits.len(),
{
    if digits.len() > 0 {
        let shorter = digits.drop_last();
        if upto < digits.len() {
            assert(shorter.subrange(0, upto) =~= digits.subrange(0, upto));
            lemma_digits_grow(shorter, upto);
        } else {
            assert(digits.subrange(0, upto) =~= digits);
            lemma_digits_grow(shorter, 0);
        }
    }
}

/// The number a piece writes: nothing unless it is all decimal digits.
pub fn number(piece: &[u8]) -> (r: Option<u64>)
    ensures
        r == number_of(piece@),
{
    if piece.len() == 0 {
        return None;
    }
    let mut value: u64 = 0;
    let mut i: usize = 0;
    while i < piece.len()
        invariant
            i <= piece@.len(),
            forall|j: int| 0 <= j < i ==> is_digit(#[trigger] piece@[j]),
            value == digits_value(piece@.subrange(0, i as int)),
        decreases piece@.len() - i,
    {
        let b = piece[i];
        if b < 48 || b > 57 {
            assert(!is_digit(piece@[i as int]));
            return None;
        }
        assert(piece@.subrange(0, i + 1).drop_last() =~= piece@.subrange(0, i as int));
        let grown = match value.checked_mul(10) {
            Some(tens) => tens.checked_add((b - 48) as u64),
            None => None,
        };
        match grown {
            Some(next) => {
                value = next;
            },
            None => {
                return overflowed(piece, i);
            },
        }
        i = i + 1;
    }
    assert(piece@.subrange(0, i as int) =~= piece@);
    Some(value)
}

/// The answer for a piece whose first `i + 1` bytes are digits writing more than `u64::MAX`:
/// nothing, whether or not the rest are digits.
fn overflowed(piece: &[u8], i: usize) -> (r: Option<u64>)
    requires
        i < piece@.len(),
        forall|j: int| 0 <= j <= i ==> is_digit(#[trigger] piece@[j]),
        digits_value(piece@.subrange(0, i + 1)) > u64::MAX,
    ensures
        r == number_of(piece@),
{
    let n = piece.len();
    assert(i < n);
    let mut k: usize = i + 1;
    while k < piece.len()
        invariant
            i < k <= piece@.len(),
            forall|j: int| 0 <= j < k ==> is_digit(#[trigger] piece@[j]),
        decreases piece@.len() - k,
    {
        if piece[k] < 48 || piece[k] > 57 {
            assert(!is_digit(piece@[k as int]));
            return None;
        }
        k = k + 1;
    }
    proof {
        lemma_digits_grow(piece@, i + 1);
    }
    None
}

/// A folder name that is nothing but numbers and dots, as a version that sorts.
pub fn version(name: &str) -> (r: Option<Vec<u64>>)
    ensures
        match r {
            Some(parts) => version_spec(encode_utf8(name@)) == Some(parts@),
            None => version_spec(encode_utf8(name@)) is None,
        },
{
    let bytes = name.as_bytes();
    let ghost all = pieces(bytes@);
    let mut parts: Vec<u64> = Vec::new();
    let mut from: usize = 0;
    let mut i: usize = 0;
    proof {
        lemma_pieces_len(bytes@);
    }
    // `parts` holds the numbers of the pieces before the one that starts at `from`.
    while i < bytes.len()
        invariant
            from <= i <= bytes@.len(),
            bytes@ == encode_utf8(name@),
            pieces(bytes@.subrange(0, i as int)).len() == parts@.len() + 1,
            pieces(bytes@.subrange(0, i as int)).last() == bytes@.subrange(from as int, i as int),
            forall|j: int|
                0 <= j < parts@.len() ==> number_of(pieces(bytes@.subrange(0, i as int))[j])
                    == Some(#[trigger] parts@[j]),
        decreases bytes@.len() - i,
    {
        let ghost upto = bytes@.subrange(0, i + 1);
        assert(upto.drop_last() =~= bytes@.subrange(0, i as int));
        if bytes[i] == 46 {
            match number(slice_piece(bytes, from, i)) {
                Some(n) => parts.push(n),
                None => {
                    proof {
                        lemma_pieces_len(bytes@.subrange(0, i as int));
                        assert(pieces(upto) == pieces(bytes@.subrange(0, i as int)).push(Seq::empty()));
                        lemma_pieces_prefix(bytes@, i + 1, parts@.len() as int);
                        assert(number_of(pieces(bytes@)[parts@.len() as int]) is None);
                        assert(bytes@ == encode_utf8(name@));
                    }
                    return None;
                },
            }
            from = i + 1;
            assert(bytes@.subrange(from as int, i + 1) =~= Seq::<u8>::empty());
        } else {
            assert(bytes@.subrange(from as int, i + 1) =~= bytes@.subrange(from as int, i as int).push(
                bytes@[i as int],
            ));
        }
        i = i + 1;
    }
    assert(bytes@.subrange(0, i as int) =~= bytes@);
    assert(bytes@ == encode_utf8(name@));
    let ghost before = parts@;
    match number(slice_piece(bytes, from, i)) {
        Some(n) => parts.push(n),
        None => return None,
    }
    assert(forall|j: int|
        0 <= j < parts@.len() ==> number_of(pieces(bytes@)[j]) == Some(#[trigger] parts@[j])) by {
        assert forall|j: int| 0 <= j < parts@.len() implies number_of(pieces(bytes@)[j]) == Some(
            #[trigger] parts@[j],
        ) by {
            if j < before.len() {
                assert(parts@[j] == before[j]);
            }
        }
    }
    assert(pieces(bytes@).len() == parts@.len());
    if parts.len() > 1 {
        assert forall|j: int| 0 <= j < pieces(bytes@).len() implies #[trigger] number_of(
            pieces(bytes@)[j],
        ) is Some by {
            assert(number_of(pieces(bytes@)[j]) == Some(parts@[j]));
        }
        assert(pieces(bytes@).map_values(|part: Seq<u8>| number_of(part).unwrap()) =~= parts@);
        Some(parts)
    } else {
        None
    }
}

/// The bytes of `text` from `from` up to `to`.
fn slice_piece(text: &[u8], from: usize, to: usize) -> (r: &[u8])
    requires
        from <= to <= text@.len(),
    ensures
        r@ == text@.subrange(from as int, to as int),
{
    vstd::slice::slice_subrange(text, from, to)
}

/// The pieces of a longer text begin with the finished pieces of a shorter one.
pub proof fn lemma_pieces_prefix(text: Seq<u8>, upto: int, done: int)
    requires
        0 <= upto <= text.len(),
        0 <= done < pieces(text.subrange(0, upto)).len() - 1,
    ensures
        pieces(text)[done] == pieces(text.subrange(0, upto))[done],
        pieces(text).len() >= pieces(text.subrange(0, upto)).len(),
    decreases text.len() - upto,
{
    if upto < text.len() {
        let longer = text.subrange(0, upto + 1);
        assert(longer.drop_last() =~= text.subrange(0, upto));
        lemma_pieces_len(text.subrange(0, upto));
        lemma_pieces_prefix(text, upto + 1, done);
    } else {
        assert(text.subrange(0, upto) =~= text);
    }
}

/// The version a path carries, read from the deepest of its parts that is a version; none when
/// no part is one.
pub open spec fn version_in(names: Seq<Seq<char>>) -> Seq<u64>
    decreases names.len(),
{
    if names.len() == 0 {
        Seq::empty()
    } else {
        match version_spec(encode_utf8(names.last())) {
            Some(numbers) => numbers,
            None => version_in(names.drop_last()),
        }
    }
}

/// The names of a path's parts, as plain values.
pub open spec fn names_of(parts: Seq<String>) -> Seq<Seq<char>> {
    parts.map_values(|part: String| part@)
}

/// The version a path carries, given the names of its parts in order: that of the deepest part
/// that is nothing but numbers and dots. A path with no such part sorts below every path that
/// has one.
pub fn version_of(parts: &Vec<String>) -> (r: Vec<u64>)
    ensures
        r@ == version_in(names_of(parts@)),
{
    let mut i: usize = parts.len();
    assert(names_of(parts@).subrange(0, i as int) =~= names_of(parts@));
    while i > 0
        invariant
            i <= parts@.len(),
            version_in(names_of(parts@)) == version_in(names_of(parts@).subrange(0, i as int)),
        decreases i,
    {
        let ghost upto = names_of(parts@).subrange(0, i as int);
        assert(upto.last() == parts@[i - 1]@);
        assert(upto.drop_last() =~= names_of(parts@).subrange(0, i - 1));
        if let Some(numbers) = version(parts[i - 1].as_str()) {
            return numbers;
        }
        i = i - 1;
    }
    Vec::new()
}

/// Whether version `a` sorts before version `b`: number by number, a version that runs out
/// first sorting first.
pub open spec fn lex_less(a: Seq<u64>, b: Seq<u64>) -> bool
    decreases a.len(),
{
    if a.len() == 0 {
        b.len() > 0
    } else if b.len() == 0 {
        false
    } else if a[0] != b[0] {
        a[0] < b[0]
    } else {
        lex_less(a.drop_first(), b.drop_first())
    }
}

/// No version sorts before itself.
pub proof fn lemma_lex_irreflexive(a: Seq<u64>)
    ensures
        !lex_less(a, a),
    decreases a.len(),
{
    if a.len() > 0 {
        lemma_lex_irreflexive(a.drop_first());
    }
}

/// Sorting before is transitive.
pub proof fn lemma_lex_transitive(a: Seq<u64>, b: Seq<u64>, c: Seq<u64>)
    requires
        lex_less(a, b),
        lex_less(b, c),
    ensures
        lex_less(a, c),
    decreases a.len(),
{
    if a.len() > 0 && b.len() > 0 && c.len() > 0 && a[0] == b[0] && b[0] == c[0] {
        lemma_lex_transitive(a.drop_first(), b.drop_first(), c.drop_first());
    }
}

/// Of two different versions, one sorts before the other.
pub proof fn lemma_lex_total(a: Seq<u64>, b: Seq<u64>)
    ensures
        lex_less(a, b) || lex_less(b, a) || a == b,
    decreases a.len(),
{
    if a.len() > 0 && b.len() > 0 && a[0] == b[0] {
        lemma_lex_total(a.drop_first(), b.drop_first());
        if a.drop_first() == b.drop_first() {
            assert(a =~= seq![a[0]] + a.drop_first());
            assert(b =~= seq![b[0]] + b.drop_first());
        }
    } else if a.len() == 0 && b.len() == 0 {
        assert(a =~= b);
    }
}

/// Whether version `a` sorts before version `b`.
pub fn less(a: &Vec<u64>, b: &Vec<u64>) -> (r: bool)
    ensures
        r == lex_less(a@, b@),
{
    let mut i: usize = 0;
    assert(a@.skip(0) =~= a@);
    assert(b@.skip(0) =~= b@);
    while i < a.len() && i < b.len()
        invariant
            i <= a@.len(),
            i <= b@.len(),
            lex_less(a@, b@) == lex_less(a@.skip(i as int), b@.skip(i as int)),
        decreases a@.len() - i,
    {
        assert(a@.skip(i as int).drop_first() =~= a@.skip(i + 1));
        assert(b@.skip(i as int).drop_first() =~= b@.skip(i + 1));
        if a[i] != b[i] {
            return a[i] < b[i];
        }
        i = i + 1;
    }
    i == a.len() && i < b.len()
}

/// Which of some versions is the newest: the last of those that nothing sorts after, as
/// `Iterator::max_by_key` picks it; none of none.
pub fn newest(versions: &Vec<Vec<u64>>) -> (r: Option<usize>)
    ensures
        match r {
            Some(best) => best < versions@.len() && (forall|j: int|
                0 <= j < versions@.len() ==> !lex_less(versions@[best as int]@, #[trigger] versions@[j]@))
                && (forall|j: int|
                best < j < versions@.len() ==> lex_less(#[trigger] versions@[j]@, versions@[best as int]@)),
            None => versions@.len() == 0,
        },
{
    if versions.len() == 0 {
        return None;
    }
    let mut best: usize = 0;
    let mut i: usize = 1;
    proof {
        lemma_lex_irreflexive(versions@[0]@);
    }
    while i < versions.len()
        invariant
            best < i <= versions@.len(),
            forall|j: int| 0 <= j < i ==> !lex_less(versions@[best as int]@, #[trigger] versions@[j]@),
            forall|j: int| best < j < i ==> lex_less(#[trigger] versions@[j]@, versions@[best as int]@),
        decreases versions@.len() - i,
    {
        if !less(&versions[i], &versions[best]) {
            proof {
                let top = versions@[i as int]@;
                let old_best = versions@[best as int]@;
                lemma_lex_irreflexive(top);
                assert forall|j: int| 0 <= j <= i implies !lex_less(top, #[trigger] versions@[j]@) by {
                    if j < i && lex_less(top, versions@[j]@) {
                        lemma_lex_total(old_best, top);
                        if lex_less(old_best, top) {
                            lemma_lex_transitive(old_best, top, versions@[j]@);
                        }
                    }
                }
            }
            best = i;
        } else {
            proof {
                let top = versions@[i as int]@;
                let kept = versions@[best as int]@;
                if lex_less(kept, top) {
                    lemma_lex_transitive(kept, top, kept);
                    lemma_lex_irreflexive(kept);
                }
            }
        }
        i = i + 1;
    }
    Some(best)
}

/// What the update service offers for this platform: the version, how large the archive is,
/// its announced SHA-256 in lowercase hex, and the mirrors to download it from.
#[derive(Clone, Debug, PartialEq, Eq)]
pub struct Release {
    pub version: String,
    pub size: u64,
    pub sha256: String,
    pub urls: Vec<String>,
}

/// The name of Google's terms at the archive root.
pub open spec fn license_name() -> Seq<u8> {
    seq![76u8, 73u8, 67u8, 69u8, 78u8, 83u8, 69u8]
}

/// `LICENSE` is spelled as `license_name` says.
proof fn lemma_license_name()
    ensures
        "LICENSE".spec_bytes() == license_name(),
{
    broadcast use vstd::string::is_ascii_spec_bytes;

    reveal_strlit("LICENSE");
    assert(vstd::string::is_ascii("LICENSE"));
    assert("LICENSE".spec_bytes() =~= license_name());
}

/// What `String::from_utf8_lossy` reads bytes as.
pub uninterp spec fn lossy_text(bytes: Seq<u8>) -> Seq<char>;

/// Reads bytes as text with `String::from_utf8_lossy`, each invalid sequence becoming U+FFFD.
/// The contract names the result, and claims what std documents for valid UTF-8: the text is
/// the one the bytes encode.
#[verifier::external_body]
fn lossy(bytes: &[u8]) -> (r: String)
    ensures
        r@ == lossy_text(bytes@),
        forall|text: Seq<char>| encode_utf8(text) == bytes@ ==> r@ == text,
{
    String::from_utf8_lossy(bytes).into_owned()
}

/// Google's terms as a download carries them: the `LICENSE` file of the crx's zip, read as
/// text, without white space at either end.
pub open spec fn license_of(archive: Seq<u8>) -> Result<Seq<char>, ArchiveError> {
    match crx_body(archive) {
        Err(error) => Err(error),
        Ok(zip) => match entry_spec(zip, license_name()) {
            Err(error) => Err(error),
            Ok(text) => Ok(trimmed(lossy_text(text))),
        },
    }
}

/// A module downloaded and checked, waiting for the user's word on Google's terms.
pub struct Offer {
    release: Release,
    archive: Vec<u8>,
    license: String,
}

impl Offer {
    /// The offer of a downloaded archive, with Google's terms read out of it.
    pub fn new(release: Release, archive: Vec<u8>) -> (r: Result<Offer, ArchiveError>)
        ensures
            match r {
                Ok(offer) => offer.release_spec() == release && offer.archive_spec() == archive@
                    && license_of(archive@) == Ok::<Seq<char>, ArchiveError>(offer.license_spec()),
                Err(error) => license_of(archive@) == Err::<Seq<char>, ArchiveError>(error),
            },
    {
        let zip = match crx(&archive) {
            Ok(zip) => zip,
            Err(error) => return Err(error),
        };
        let text = match entry(zip, "LICENSE") {
            Ok(text) => text,
            Err(error) => {
                proof {
                    lemma_license_name();
                }
                return Err(error);
            },
        };
        proof {
            lemma_license_name();
        }
        let read = lossy(text.as_slice());
        let license = trim(read.as_str());
        Ok(Offer { release, archive, license })
    }

    /// The offer of an archive that needs no terms shown: the user accepted them before.
    pub fn accepted(release: Release, archive: Vec<u8>) -> (r: Offer)
        ensures
            r.release_spec() == release,
            r.archive_spec() == archive@,
            r.license_spec() == Seq::<char>::empty(),
    {
        Offer { release, archive, license: String::new() }
    }

    pub closed spec fn release_spec(&self) -> Release {
        self.release
    }

    pub closed spec fn archive_spec(&self) -> Seq<u8> {
        self.archive@
    }

    pub closed spec fn license_spec(&self) -> Seq<char> {
        self.license@
    }

    /// The version offered.
    pub fn version(&self) -> (r: &str)
        ensures
            r@ == self.release_spec().version@,
    {
        self.release.version.as_str()
    }

    /// Google's terms for the module, as the archive carries them.
    pub fn license(&self) -> (r: &str)
        ensures
            r@ == self.license_spec(),
    {
        self.license.as_str()
    }

    /// What the service offered.
    pub fn release(&self) -> (r: &Release)
        ensures
            *r == self.release_spec(),
    {
        &self.release
    }

    /// The archive as downloaded.
    pub fn archive(&self) -> (r: &[u8])
        ensures
            r@ == self.archive_spec(),
    {
        self.archive.as_slice()
    }
}

/// Why the update service's answer names no module to fetch.
#[derive(Clone, Debug, PartialEq, Eq)]
pub enum ReleaseError {
    /// The answer is not JSON.
    NotJson,
    /// The service offers nothing for this platform; the status it gave.
    NoModule(String),
    /// The offer names no version.
    NoVersion,
    /// The offer carries no checksum.
    NoChecksum,
    /// The offer names nowhere to download from.
    NoMirror,
}

/// Why an answer names no module, as a plain value.
pub enum Failure {
    NotJson,
    NoModule(Seq<char>),
    NoVersion,
    NoChecksum,
    NoMirror,
}

/// A failure as a plain value.
pub open spec fn failure_of(error: ReleaseError) -> Failure {
    match error {
        ReleaseError::NotJson => Failure::NotJson,
        ReleaseError::NoModule(status) => Failure::NoModule(status@),
        ReleaseError::NoVersion => Failure::NoVersion,
        ReleaseError::NoChecksum => Failure::NoChecksum,
        ReleaseError::NoMirror => Failure::NoMirror,
    }
}

/// An offer as a plain value.
pub struct Offered {
    pub version: Seq<char>,
    pub size: u64,
    pub sha256: Seq<char>,
    pub urls: Seq<Seq<char>>,
}

/// An offer of the service as a plain value.
pub open spec fn offered_of(release: Release) -> Offered {
    Offered {
        version: release.version@,
        size: release.size,
        sha256: release.sha256@,
        urls: release.urls@.map_values(|url: String| url@),
    }
}

/// The answer without the guard line in front of it: what follows the first line break, the
/// whole answer when it has none.
pub open spec fn unguarded(text: Seq<char>) -> Seq<char> {
    let end = stop_at(text, |c: char| c == '\n', 0);
    if end < text.len() {
        text.skip(end + 1)
    } else {
        text
    }
}

/// Whether a url is reached over https.
pub open spec fn secure(url: Seq<char>) -> bool {
    url.len() >= 8 && url.take(8) == seq!['h', 't', 't', 'p', 's', ':', '/', '/']
}

/// The urls the mirrors name, in order, skipping those that name none.
pub open spec fn mirror_urls(mirrors: Seq<JsonValue>) -> Seq<Seq<char>>
    decreases mirrors.len(),
{
    if mirrors.len() == 0 {
        Seq::empty()
    } else {
        let before = mirror_urls(mirrors.drop_last());
        match str_of(get(mirrors.last(), "url"@)) {
            Some(url) => before.push(url),
            None => before,
        }
    }
}

/// The urls with the https ones first, each group in its order, as a stable sort on whether a
/// url is plain http leaves them.
pub open spec fn https_first(urls: Seq<Seq<char>>) -> Seq<Seq<char>> {
    urls.filter(|url: Seq<char>| secure(url)) + urls.filter(|url: Seq<char>| !secure(url))
}

/// What the update service offers, read out of its answer.
pub open spec fn release_spec(text: Seq<char>) -> Result<Offered, Failure> {
    match parsed(unguarded(text)) {
        None => Err(Failure::NotJson),
        Some(answer) => {
            let check = get(nth(get(get(answer, "response"@), "apps"@), 0), "updatecheck"@);
            let status = match str_of(get(check, "status"@)) {
                Some(status) => status,
                None => Seq::empty(),
            };
            if status != "ok"@ {
                Err(Failure::NoModule(status))
            } else {
                match str_of(get(check, "nextversion"@)) {
                    None => Err(Failure::NoVersion),
                    Some(version) => {
                        let operation = nth(get(nth(get(check, "pipelines"@), 0), "operations"@), 0);
                        let size = match u64_of(get(operation, "size"@)) {
                            Some(size) => size,
                            None => 0,
                        };
                        match str_of(get(get(operation, "out"@), "sha256"@)) {
                            None => Err(Failure::NoChecksum),
                            Some(sha256) => match get(operation, "urls"@) {
                                JsonValue::Array(mirrors) => {
                                    let urls = https_first(mirror_urls(mirrors));
                                    if urls.len() == 0 {
                                        Err(Failure::NoMirror)
                                    } else {
                                        Ok(
                                            Offered {
                                                version,
                                                size,
                                                sha256: ascii_lower(sha256),
                                                urls,
                                            },
                                        )
                                    }
                                },
                                _ => Err(Failure::NoMirror),
                            },
                        }
                    },
                }
            }
        },
    }
}

/// ASCII letters of a text in lower case.
fn lowered_ascii(text: &String) -> (r: String)
    ensures
        r@ == ascii_lower(text@),
{
    let chars = chars_of(text.as_str());
    let mut out: Vec<char> = Vec::new();
    let mut i: usize = 0;
    while i < chars.len()
        invariant
            i <= chars@.len(),
            out@ == ascii_lower(chars@.take(i as int)),
        decreases chars@.len() - i,
    {
        let c = chars[i];
        let low = if 'A' <= c && c <= 'Z' {
            ((c as u8) + 32) as char
        } else {
            c
        };
        out.push(low);
        i = i + 1;
        assert(out@ =~= ascii_lower(chars@.take(i as int)));
    }
    assert(chars@.take(i as int) =~= chars@);
    string_of(&out)
}

/// Whether a url is reached over https.
fn is_secure(url: &String) -> (r: bool)
    ensures
        r == secure(url@),
{
    let chars = chars_of(url.as_str());
    let scheme: [char; 8] = ['h', 't', 't', 'p', 's', ':', '/', '/'];
    let ghost wanted = seq!['h', 't', 't', 'p', 's', ':', '/', '/'];
    assert(scheme@ =~= wanted);
    if chars.len() < 8 {
        return false;
    }
    let mut i: usize = 0;
    while i < 8
        invariant
            i <= 8,
            chars@.len() >= 8,
            scheme@ == wanted,
            wanted == seq!['h', 't', 't', 'p', 's', ':', '/', '/'],
            chars@ == url@,
            forall|j: int| 0 <= j < i ==> chars@[j] == wanted[j],
        decreases 8 - i,
    {
        if chars[i] != scheme[i] {
            assert(chars@.take(8)[i as int] != wanted[i as int]);
            return false;
        }
        i = i + 1;
    }
    assert(chars@.take(8) =~= wanted);
    true
}

/// The urls the mirrors name, in order.
fn urls_of(mirrors: &Vec<Json>) -> (r: Vec<String>)
    ensures
        r@.map_values(|url: String| url@) == mirror_urls(values_of(mirrors@)),
{
    proof {
        lemma_values_of(mirrors@);
    }
    let mut out: Vec<String> = Vec::new();
    let mut i: usize = 0;
    while i < mirrors.len()
        invariant
            i <= mirrors@.len(),
            values_of(mirrors@).len() == mirrors@.len(),
            forall|k: int| 0 <= k < mirrors@.len() ==> #[trigger] values_of(mirrors@)[k] == value_of(
                mirrors@[k],
            ),
            out@.map_values(|url: String| url@) == mirror_urls(values_of(mirrors@).take(i as int)),
        decreases mirrors@.len() - i,
    {
        let ghost upto = values_of(mirrors@).take(i + 1);
        assert(upto.drop_last() =~= values_of(mirrors@).take(i as int));
        assert(upto.last() == mirrors@[i as int]@);
        let ghost before = out@;
        if let Some(url) = as_str(get_field(&mirrors[i], "url")) {
            out.push(url.clone());
            assert(out@.map_values(|url: String| url@) =~= before.map_values(|url: String| url@).push(
                url@,
            ));
        }
        i = i + 1;
    }
    assert(values_of(mirrors@).take(i as int) =~= values_of(mirrors@));
    out
}

/// The urls with the https ones first.
fn sorted_urls(urls: Vec<String>) -> (r: Vec<String>)
    ensures
        r@.map_values(|url: String| url@) == https_first(urls@.map_values(|url: String| url@)),
{
    let ghost all = urls@.map_values(|url: String| url@);
    let mut secure_ones: Vec<String> = Vec::new();
    let mut others: Vec<String> = Vec::new();
    let mut i: usize = 0;
    while i < urls.len()
        invariant
            i <= urls@.len(),
            all == urls@.map_values(|url: String| url@),
            secure_ones@.map_values(|url: String| url@) == all.take(i as int).filter(
                |url: Seq<char>| secure(url),
            ),
            others@.map_values(|url: String| url@) == all.take(i as int).filter(
                |url: Seq<char>| !secure(url),
            ),
        decreases urls@.len() - i,
    {
        let ghost upto = all.take(i + 1);
        assert(upto.drop_last() =~= all.take(i as int));
        assert(upto.last() == urls@[i as int]@);
        reveal(Seq::filter);
        let ghost s = secure_ones@;
        let ghost o = others@;
        if is_secure(&urls[i]) {
            secure_ones.push(urls[i].clone());
            assert(secure_ones@.map_values(|url: String| url@) =~= s.map_values(|url: String| url@).push(
                urls@[i as int]@,
            ));
        } else {
            others.push(urls[i].clone());
            assert(others@.map_values(|url: String| url@) =~= o.map_values(|url: String| url@).push(
                urls@[i as int]@,
            ));
        }
        i = i + 1;
    }
    assert(all.take(i as int) =~= all);
    let ghost s = secure_ones@;
    secure_ones.append(&mut others);
    assert(secure_ones@.map_values(|url: String| url@) =~= https_first(all));
    secure_ones
}

/// Where the first line of `chars` ends: its first line break, the end when it has none.
fn line_end(chars: &Vec<char>) -> (r: usize)
    ensures
        r == stop_at(chars@, |c: char| c == '\n', 0),
        r <= chars@.len(),
{
    let mut end: usize = 0;
    while end < chars.len()
        invariant
            end <= chars@.len(),
            stop_at(chars@, |c: char| c == '\n', 0) == stop_at(chars@, |c: char| c == '\n', end as int),
        decreases chars@.len() - end,
    {
        if chars[end] == '\n' {
            return end;
        }
        end = end + 1;
    }
    end
}

/// What the update service offers for this platform, read out of its answer: JSON behind a
/// guard line, whose first app's update check has to be `ok` and name a version, a checksum
/// and the mirrors to download from, https ones first.
pub fn release(text: &str) -> (r: Result<Release, ReleaseError>)
    ensures
        match r {
            Ok(release) => release_spec(text@) == Ok::<Offered, Failure>(offered_of(release)),
            Err(error) => release_spec(text@) == Err::<Offered, Failure>(failure_of(error)),
        },
{
    let chars = chars_of(text);
    let end = line_end(&chars);
    let body: Vec<char> = if end < chars.len() {
        let mut rest: Vec<char> = Vec::new();
        let mut k = end + 1;
        while k < chars.len()
            invariant
                end < k <= chars@.len(),
                rest@ == chars@.subrange(end + 1, k as int),
            decreases chars@.len() - k,
        {
            rest.push(chars[k]);
            k = k + 1;
            assert(rest@ =~= chars@.subrange(end + 1, k as int));
        }
        assert(chars@.subrange(end + 1, k as int) =~= chars@.skip(end + 1));
        rest
    } else {
        chars
    };
    assert(body@ == unguarded(text@));
    let answer = match parse(string_of(&body).as_str()) {
        Some(answer) => answer,
        None => return Err(ReleaseError::NotJson),
    };
    let check = get_field(get_item(get_field(get_field(&answer, "response"), "apps"), 0), "updatecheck");
    let status = match as_str(get_field(check, "status")) {
        Some(status) => status.clone(),
        None => String::new(),
    };
    if !reads(&status, "ok") {
        return Err(ReleaseError::NoModule(status));
    }
    let version = match as_str(get_field(check, "nextversion")) {
        Some(version) => version.clone(),
        None => return Err(ReleaseError::NoVersion),
    };
    let operation = get_item(get_field(get_item(get_field(check, "pipelines"), 0), "operations"), 0);
    let size = match as_u64(get_field(operation, "size")) {
        Some(size) => size,
        None => 0,
    };
    let sha256 = match as_str(get_field(get_field(operation, "out"), "sha256")) {
        Some(sha256) => lowered_ascii(sha256),
        None => return Err(ReleaseError::NoChecksum),
    };
    let urls = match get_field(operation, "urls") {
        Json::Array(mirrors) => sorted_urls(urls_of(mirrors)),
        _ => return Err(ReleaseError::NoMirror),
    };
    if urls.len() == 0 {
        return Err(ReleaseError::NoMirror);
    }
    Ok(Release { version, size, sha256, urls })
}

} // verus!
