//! What host and listeners say to each other in a jam: the binary header in front of every
//! audio frame, and the messages that travel as text.

use vstd::bytes::{
    lemma_auto_spec_u32_to_from_le_bytes, lemma_auto_spec_u64_to_from_le_bytes,
    spec_u32_from_le_bytes, spec_u32_to_le_bytes, spec_u64_from_le_bytes, spec_u64_to_le_bytes,
    u32_from_le_bytes, u32_to_le_bytes, u64_from_le_bytes, u64_to_le_bytes,
};
use vstd::prelude::*;
use vstd::slice::slice_subrange;

use crate::alike::Alike;
use crate::track::{copy_optional, same_optional, same_text, text_of};

verus! {

/// The protocol version both sides have to speak.
pub const PROTOCOL: u32 = 5;
/// How long the frame header is, in bytes.
pub const HEADER: usize = 16;

/// The four bytes every frame opens with.
pub open spec fn magic() -> Seq<u8> {
    seq![0x53u8, 0x4Eu8, 0x4Au8, 0x31u8]
}

/// The magic as bytes to write.
pub fn magic_bytes() -> (r: [u8; 4])
    ensures
        r@ == magic(),
{
    let r: [u8; 4] = [0x53, 0x4E, 0x4A, 0x31];
    assert(r@ =~= magic());
    r
}

/// What opens every audio frame: its number in the stream and the index of its first sample.
#[derive(Clone, Copy, Debug, PartialEq, Eq, Structural)]
pub struct Header {
    pub seq: u32,
    pub first_sample: u64,
}

/// Why a frame could not be read.
#[derive(Clone, Copy, Debug, PartialEq, Eq, Structural)]
pub enum FrameError {
    /// The frame is shorter than the header.
    Short,
    /// The frame does not open with the jam magic.
    Foreign,
}

/// The bytes a header is written as: the magic, then the sequence number and the first
/// sample, each little-endian.
pub open spec fn header_bytes(header: Header) -> Seq<u8> {
    magic() + spec_u32_to_le_bytes(header.seq) + spec_u64_to_le_bytes(header.first_sample)
}

/// What reading `frame` gives.
pub open spec fn read_header(frame: Seq<u8>) -> Result<Header, FrameError> {
    if frame.len() < HEADER {
        Err(FrameError::Short)
    } else if frame.subrange(0, 4) != magic() {
        Err(FrameError::Foreign)
    } else {
        Ok(
            Header {
                seq: spec_u32_from_le_bytes(frame.subrange(4, 8)),
                first_sample: spec_u64_from_le_bytes(frame.subrange(8, 16)),
            },
        )
    }
}

impl Header {
    /// Appends the header's bytes to `out`.
    pub fn write(&self, out: &mut Vec<u8>)
        ensures
            final(out)@ == old(out)@ + header_bytes(*self),
    {
        let stamp = magic_bytes();
        let mut i: usize = 0;
        let ghost start = out@;
        while i < 4
            invariant
                i <= 4,
                stamp@ == magic(),
                out@ == start + magic().subrange(0, i as int),
            decreases 4 - i,
        {
            out.push(stamp[i]);
            i = i + 1;
            assert(out@ =~= start + magic().subrange(0, i as int));
        }
        assert(magic().subrange(0, 4) =~= magic());
        let mut seq = u32_to_le_bytes(self.seq);
        let mut first = u64_to_le_bytes(self.first_sample);
        out.append(&mut seq);
        out.append(&mut first);
        assert(out@ =~= start + header_bytes(*self));
    }

    /// Reads the header off the front of a frame.
    pub fn read(frame: &[u8]) -> (r: Result<Self, FrameError>)
        ensures
            r == read_header(frame@),
    {
        if frame.len() < HEADER {
            return Err(FrameError::Short);
        }
        let stamp = magic_bytes();
        let mut i: usize = 0;
        while i < 4
            invariant
                i <= 4,
                frame@.len() >= HEADER,
                stamp@ == magic(),
                forall|j: int| 0 <= j < i ==> frame@[j] == magic()[j],
            decreases 4 - i,
        {
            if frame[i] != stamp[i] {
                assert(frame@.subrange(0, 4)[i as int] != magic()[i as int]);
                return Err(FrameError::Foreign);
            }
            i = i + 1;
        }
        assert(frame@.subrange(0, 4) =~= magic());
        let seq = u32_from_le_bytes(slice_subrange(frame, 4, 8));
        let first_sample = u64_from_le_bytes(slice_subrange(frame, 8, HEADER));
        Ok(Header { seq, first_sample })
    }
}

/// A header written and read back is the header, whatever bytes follow it in the frame.
pub proof fn lemma_header_round_trip(header: Header, payload: Seq<u8>)
    ensures
        header_bytes(header).len() == HEADER,
        read_header(header_bytes(header) + payload) == Ok::<Header, FrameError>(header),
{
    lemma_auto_spec_u32_to_from_le_bytes();
    lemma_auto_spec_u64_to_from_le_bytes();
    let bytes = header_bytes(header) + payload;
    assert(bytes.subrange(0, 4) =~= magic());
    assert(bytes.subrange(4, 8) =~= spec_u32_to_le_bytes(header.seq));
    assert(bytes.subrange(8, 16) =~= spec_u64_to_le_bytes(header.first_sample));
}

/// A frame shorter than the header is refused as short, never read.
pub proof fn lemma_short_frames_are_refused(frame: Seq<u8>)
    requires
        frame.len() < HEADER,
    ensures
        read_header(frame) == Err::<Header, FrameError>(FrameError::Short),
{
}

/// How the audio is coded.
#[derive(Clone, Copy, Debug, PartialEq, Eq, Structural)]
pub enum Codec {
    Pcm16,
}

/// The shape of the audio stream.
#[derive(Clone, Copy, Debug, PartialEq, Eq, Structural)]
pub struct Format {
    pub rate: u32,
    pub channels: u16,
    pub codec: Codec,
}

/// What a listener may do besides listen.
#[derive(Clone, Copy, Debug, PartialEq, Eq, Structural)]
pub struct Caps {
    pub add: bool,
    pub control: bool,
    pub browse: bool,
    pub favorite: bool,
}

impl Default for Caps {
    fn default() -> (r: Self)
        ensures
            r == (Caps { add: false, control: false, browse: false, favorite: false }),
    {
        Caps { add: false, control: false, browse: false, favorite: false }
    }
}

/// One thing a listener may be allowed to do.
#[derive(Clone, Copy, Debug, PartialEq, Eq, Structural)]
pub enum Cap {
    Add,
    Control,
    Browse,
    Favorite,
}

/// Whether `caps` allows `cap`.
pub open spec fn allows(caps: Caps, cap: Cap) -> bool {
    match cap {
        Cap::Add => caps.add,
        Cap::Control => caps.control,
        Cap::Browse => caps.browse,
        Cap::Favorite => caps.favorite,
    }
}

/// `caps` with `cap` turned `on` or off and the rest as they were.
pub open spec fn with_cap(caps: Caps, cap: Cap, on: bool) -> Caps {
    match cap {
        Cap::Add => Caps { add: on, ..caps },
        Cap::Control => Caps { control: on, ..caps },
        Cap::Browse => Caps { browse: on, ..caps },
        Cap::Favorite => Caps { favorite: on, ..caps },
    }
}

/// The text key that names a capability on the settings page.
pub open spec fn cap_key(cap: Cap) -> Seq<char> {
    match cap {
        Cap::Add => "jam-cap-add"@,
        Cap::Control => "jam-cap-control"@,
        Cap::Browse => "jam-cap-browse"@,
        Cap::Favorite => "jam-cap-favorite"@,
    }
}

impl Cap {
    /// Every capability, in the order the settings page lists them.
    pub fn all() -> (r: [Cap; 4])
        ensures
            r@ == seq![Cap::Add, Cap::Control, Cap::Browse, Cap::Favorite],
    {
        let r = [Cap::Add, Cap::Control, Cap::Browse, Cap::Favorite];
        assert(r@ =~= seq![Cap::Add, Cap::Control, Cap::Browse, Cap::Favorite]);
        r
    }

    pub fn key(self) -> (r: &'static str)
        ensures
            r@ == cap_key(self),
    {
        match self {
            Cap::Add => "jam-cap-add",
            Cap::Control => "jam-cap-control",
            Cap::Browse => "jam-cap-browse",
            Cap::Favorite => "jam-cap-favorite",
        }
    }

    pub fn of(self, caps: &Caps) -> (r: bool)
        ensures
            r == allows(*caps, self),
    {
        match self {
            Cap::Add => caps.add,
            Cap::Control => caps.control,
            Cap::Browse => caps.browse,
            Cap::Favorite => caps.favorite,
        }
    }

    pub fn set(self, caps: &mut Caps, on: bool)
        ensures
            *final(caps) == with_cap(*old(caps), self, on),
    {
        match self {
            Cap::Add => caps.add = on,
            Cap::Control => caps.control = on,
            Cap::Browse => caps.browse = on,
            Cap::Favorite => caps.favorite = on,
        }
    }
}

/// Setting a capability and then asking for it answers what was set, and leaves every other
/// capability as it was.
pub proof fn lemma_set_then_of(caps: Caps, cap: Cap, other: Cap, on: bool)
    ensures
        allows(with_cap(caps, cap, on), cap) == on,
        other != cap ==> allows(with_cap(caps, cap, on), other) == allows(caps, other),
{
}

/// How the host repeats.
#[derive(Clone, Copy, Debug, PartialEq, Eq, Structural)]
pub enum Repeat {
    Off,
    All,
    One,
}

impl Default for Repeat {
    fn default() -> (r: Self)
        ensures
            r == Repeat::Off,
    {
        Repeat::Off
    }
}

/// A command a listener with control sends.
#[derive(Clone, Copy, Debug, PartialEq, Eq, Structural)]
pub enum Act {
    Play,
    Pause,
    Next,
    Previous,
    Seek { ms: u64 },
    Volume { level: u8 },
    Shuffle { on: bool },
    Repeat,
    Jump { index: i32 },
    Drop { index: u32 },
}

/// A break in the stream: silence, or a cut the listener has to flush for.
#[derive(Clone, Copy, Debug, PartialEq, Eq, Structural)]
pub enum MarkKind {
    Quiet,
    Cut,
}

/// Why the host turned a listener away.
#[derive(Clone, Copy, Debug, PartialEq, Eq, Structural)]
pub enum Refusal {
    Protocol,
    Code,
    Codec,
    Full,
    Closed,
    Kicked,
}

/// A track as a listener sees it.
#[derive(Clone, Debug, PartialEq, Eq)]
pub struct Hit {
    pub id: String,
    pub title: String,
    pub artist: String,
    pub album: String,
    pub cover: Option<String>,
    pub duration_ms: u64,
    pub provider: String,
}

/// Why the host did not do what a listener asked.
#[derive(Clone, Copy, Debug, PartialEq, Eq, Structural)]
pub enum Denial {
    Closed,
    Unknown,
    Busy,
    Forbidden,
}

/// A listener as the others see them.
#[derive(Clone, Debug, PartialEq, Eq)]
pub struct Who {
    pub name: String,
    pub native: bool,
}

/// A playlist the host shows listeners.
#[derive(Clone, Debug, PartialEq, Eq)]
pub struct Pack {
    pub id: String,
    pub name: String,
    pub owner: String,
    pub cover: Option<String>,
    pub tracks: u32,
    pub provider: String,
}

/// One line of lyrics, `at` milliseconds into the track.
#[derive(Clone, Debug, PartialEq, Eq)]
pub struct Line {
    pub at: u64,
    pub text: String,
}

/// Why a jam ended for a listener.
#[derive(Clone, Copy, Debug, PartialEq, Eq, Structural)]
pub enum Farewell {
    HostLeft,
    Kicked,
}

/// What a listener says to the host.
#[derive(Clone, Debug, PartialEq, Eq)]
pub enum FromReceiver {
    Hello {
        protocol: u32,
        name: String,
        native: bool,
        code: String,
        device: String,
        accepts: Vec<Codec>,
    },
    Ping { t0: u64, need: u32 },
    Find { query: String },
    Add { id: String },
    Command { act: Act },
    Open { pack: String },
    Enqueue { pack: String, next: bool },
    Favorite { id: String, on: bool },
    Bye,
}

/// What the host says to a listener.
#[derive(Clone, Debug, PartialEq, Eq)]
pub enum FromHost {
    Welcome { protocol: u32, room: String, format: Format, lead_ms: u32, origin: u64 },
    Refused { reason: Refusal },
    Grant { can: Caps },
    Controls {
        volume: u8,
        shuffle: bool,
        repeat: Repeat,
        can_next: bool,
        can_previous: bool,
        favorite: bool,
    },
    Room { listeners: Vec<Who>, you: i32 },
    Lineup { revision: u64, total: u32, at: i32, rows: Vec<Hit> },
    Packs { packs: Vec<Pack> },
    Opened { pack: String, total: u32, rows: Vec<Hit> },
    Words { synced: bool, lines: Vec<Line> },
    Mark { mark: MarkKind, at: u64, origin: u64 },
    Lead { lead_ms: u32 },
    Now {
        title: String,
        artist: String,
        album: String,
        cover: Option<String>,
        duration_ms: u64,
        provider: String,
    },
    Transport { playing: bool, position_ms: u64 },
    Pong { t0: u64, t1: u64, t2: u64 },
    Found { query: String, hits: Vec<Hit> },
    Added { title: String },
    Denied { reason: Denial },
    Ended { reason: Farewell },
}

/// A hit as a plain value.
pub struct HitView {
    pub id: Seq<char>,
    pub title: Seq<char>,
    pub artist: Seq<char>,
    pub album: Seq<char>,
    pub cover: Option<Seq<char>>,
    pub duration_ms: u64,
    pub provider: Seq<char>,
}

impl View for Hit {
    type V = HitView;

    open spec fn view(&self) -> HitView {
        HitView {
            id: self.id@,
            title: self.title@,
            artist: self.artist@,
            album: self.album@,
            cover: text_of(self.cover),
            duration_ms: self.duration_ms,
            provider: self.provider@,
        }
    }
}

impl Alike for Hit {
    fn alike(&self, other: &Self) -> (r: bool) {
        same_text(&self.id, &other.id) && same_text(&self.title, &other.title) && same_text(
            &self.artist,
            &other.artist,
        ) && same_text(&self.album, &other.album) && same_optional(&self.cover, &other.cover)
            && self.duration_ms == other.duration_ms && same_text(&self.provider, &other.provider)
    }

    fn duplicate(&self) -> (r: Self) {
        Hit {
            id: self.id.clone(),
            title: self.title.clone(),
            artist: self.artist.clone(),
            album: self.album.clone(),
            cover: copy_optional(&self.cover),
            duration_ms: self.duration_ms,
            provider: self.provider.clone(),
        }
    }
}

/// A listener as a plain value.
pub struct WhoView {
    pub name: Seq<char>,
    pub native: bool,
}

impl View for Who {
    type V = WhoView;

    open spec fn view(&self) -> WhoView {
        WhoView { name: self.name@, native: self.native }
    }
}

impl Alike for Who {
    fn alike(&self, other: &Self) -> (r: bool) {
        same_text(&self.name, &other.name) && self.native == other.native
    }

    fn duplicate(&self) -> (r: Self) {
        Who { name: self.name.clone(), native: self.native }
    }
}

/// A playlist as a plain value.
pub struct PackView {
    pub id: Seq<char>,
    pub name: Seq<char>,
    pub owner: Seq<char>,
    pub cover: Option<Seq<char>>,
    pub tracks: u32,
    pub provider: Seq<char>,
}

impl View for Pack {
    type V = PackView;

    open spec fn view(&self) -> PackView {
        PackView {
            id: self.id@,
            name: self.name@,
            owner: self.owner@,
            cover: text_of(self.cover),
            tracks: self.tracks,
            provider: self.provider@,
        }
    }
}

impl Alike for Pack {
    fn alike(&self, other: &Self) -> (r: bool) {
        same_text(&self.id, &other.id) && same_text(&self.name, &other.name) && same_text(
            &self.owner,
            &other.owner,
        ) && same_optional(&self.cover, &other.cover) && self.tracks == other.tracks && same_text(
            &self.provider,
            &other.provider,
        )
    }

    fn duplicate(&self) -> (r: Self) {
        Pack {
            id: self.id.clone(),
            name: self.name.clone(),
            owner: self.owner.clone(),
            cover: copy_optional(&self.cover),
            tracks: self.tracks,
            provider: self.provider.clone(),
        }
    }
}

/// A line of lyrics as a plain value.
pub struct LineView {
    pub at: u64,
    pub text: Seq<char>,
}

impl View for Line {
    type V = LineView;

    open spec fn view(&self) -> LineView {
        LineView { at: self.at, text: self.text@ }
    }
}

impl Alike for Line {
    fn alike(&self, other: &Self) -> (r: bool) {
        self.at == other.at && same_text(&self.text, &other.text)
    }

    fn duplicate(&self) -> (r: Self) {
        Line { at: self.at, text: self.text.clone() }
    }
}

} // verus!
