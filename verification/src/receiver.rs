//! A listener's side of a jam, as decisions: how the host's welcome is read, how much a listener
//! asks the host to buffer, which frames play, how far playback is off the host's schedule and
//! what is done about it, and what each message from the host changes. The socket, the timers
//! and the audio sink stay with the caller, which hands in what happened and what the sink
//! reports, and carries out what comes back.

use vstd::prelude::*;

use crate::clock::{best_of, correction, nudge_for, offset_of, play_at, play_time, rtt_of, Clock, Nudge, Sample};
use crate::server::Playing;
use crate::wire::{
    read_header, Codec, Farewell, FrameError, Format, FromHost, FromReceiver, Header, MarkKind, Refusal,
    HEADER, PROTOCOL,
};

verus! {

/// How long the sink holds audio before it plays it, in milliseconds.
pub const SINK_LATENCY: u32 = 60;
/// What a listener asks for on top, in milliseconds.
pub const MARGIN: u32 = 40;
/// How long after one nudge the next may come, in milliseconds.
pub const SLEW_GAP_MS: u64 = 50;

/// What happened to a listener, as the player hears of it.
#[derive(Debug)]
pub enum ReceiverEvent {
    /// The host let it in to the room of this name.
    Welcomed(String),
    /// The host plays this.
    Now(Playing),
    /// The host turned it away.
    Refused(Refusal),
    /// The jam ended for it.
    Ended(Farewell),
    /// The connection to the host is gone.
    Lost,
}

/// What a listener follows the host with: its clock against the host's, the stream's format,
/// the host's origin and lead, where a quiet stretch begins, how many frames went to the sink,
/// and when it was last nudged.
pub struct Follower {
    pub clock: Clock,
    pub format: Format,
    pub origin: u64,
    pub lead: u32,
    pub quiet_at: Option<u64>,
    pub pushed: u64,
    pub slewed_at: u64,
}

/// How the host answered a hello.
pub enum Greeting {
    /// It let the listener in to `room`.
    Welcome { room: String, follower: Follower },
    /// It turned the listener away.
    Refused(Refusal),
    /// It said something else first.
    OutOfTurn,
}

/// What the listener does with the sink after a frame.
#[derive(Clone, Copy, Debug, PartialEq, Eq, Structural)]
pub enum Adjust {
    /// Nothing.
    Hold,
    /// Speed up or slow down by this many parts per million.
    Nudge(i32),
    /// Drop what the sink holds, then tell the follower what it has played.
    Flush,
}

/// What a message from the host leads to.
#[derive(Debug)]
pub enum Outcome {
    /// Nothing more.
    Quiet,
    /// Drop what the sink holds, then tell the follower what it has played.
    Flush,
    /// Tell the player.
    Tell(ReceiverEvent),
    /// Tell the player, then leave.
    Leave(ReceiverEvent),
}

/// The samples of 16-bit little-endian audio: one for every two bytes, a byte left over dropped.
pub open spec fn pcm_of(bytes: Seq<u8>) -> Seq<i16> {
    Seq::new(bytes.len() / 2, |i: int| ((bytes[2 * i] + 256 * bytes[2 * i + 1]) as u16) as i16)
}

/// The 16-bit samples in `bytes`.
pub fn pcm(bytes: &[u8]) -> (r: Vec<i16>)
    ensures
        r@ == pcm_of(bytes@),
{
    let mut out: Vec<i16> = Vec::new();
    let pairs = bytes.len() / 2;
    let mut i: usize = 0;
    while i < pairs
        invariant
            pairs == bytes@.len() / 2,
            bytes@.len() <= usize::MAX,
            i <= pairs,
            out@.len() == i,
            forall|j: int| 0 <= j < i ==> #[trigger] out@[j] == pcm_of(bytes@)[j],
        decreases pairs - i,
    {
        let low = bytes[2 * i] as u16;
        let high = bytes[2 * i + 1] as u16;
        let both: u16 = low + high * 256;
        out.push(#[verifier::truncate] (both as i16));
        i = i + 1;
    }
    assert(out@ =~= pcm_of(bytes@));
    out
}

/// What a listener asks the host to buffer for it: the sink's latency, half the best round
/// trip, and a margin, added as a release build adds them.
pub open spec fn need_of(rtt: u64) -> u32 {
    SINK_LATENCY.wrapping_add(((rtt / 2) as u32)).wrapping_add(MARGIN)
}

/// How far playback of the frame at `first_sample` is off the host's schedule, in
/// milliseconds, computed as a release build computes it: when the frame is due by the host's
/// clock, moved to ours by `offset`, against now plus what the sink still holds.
pub open spec fn error_of(
    origin: u64,
    lead: u32,
    rate: u32,
    offset: i64,
    first_sample: u64,
    pushed: u64,
    played: u64,
    now: u64,
) -> i64 {
    let due = ((play_time(origin, first_sample, rate, lead) as u64) as i64).wrapping_sub(offset);
    let held = if pushed >= played {
        (pushed - played) as u64
    } else {
        0u64
    };
    let waiting = ((held.wrapping_mul(1_000) / (if rate == 0 {
        1u64
    } else {
        rate as u64
    })) as i64);
    (now as i64).wrapping_add(waiting).wrapping_sub(due)
}

/// What an error asks for, as a release build reads it: the one error with no magnitude holds.
pub open spec fn nudge_of(error: i64) -> Nudge {
    if error == i64::MIN {
        Nudge::Hold
    } else {
        nudge_for(error)
    }
}

impl Follower {
    /// How the host answered a hello: a welcome starts a follower at the host's origin and lead,
    /// with no clock samples, nothing pushed, and no nudge yet.
    pub fn greeted(answer: FromHost, now: u64) -> (r: Greeting)
        ensures
            match answer {
                FromHost::Welcome { protocol: _, room, format, lead_ms, origin } => r
                    matches Greeting::Welcome { room: named, follower } && named == room
                    && follower.format == format && follower.origin == origin && follower.lead
                    == lead_ms && follower.quiet_at is None && follower.pushed == 0
                    && follower.slewed_at == now && follower.clock.samples().len() == 0,
                FromHost::Refused { reason } => r == Greeting::Refused(reason),
                _ => r is OutOfTurn,
            },
    {
        match answer {
            FromHost::Welcome { protocol: _, room, format, lead_ms, origin } => {
                let follower = Follower {
                    clock: Clock::new(),
                    format,
                    origin,
                    lead: lead_ms,
                    quiet_at: None,
                    pushed: 0,
                    slewed_at: now,
                };
                Greeting::Welcome { room, follower }
            },
            FromHost::Refused { reason } => Greeting::Refused(reason),
            _ => Greeting::OutOfTurn,
        }
    }

    /// What to ask the host to buffer.
    pub fn need(&self) -> (r: u32)
        ensures
            r == need_of(
                match best_of(self.clock.samples()) {
                    Some(best) => rtt_of(best) as u64,
                    None => 0,
                },
            ),
    {
        let rtt = self.clock.rtt();
        SINK_LATENCY.wrapping_add((rtt / 2) as u32).wrapping_add(MARGIN)
    }

    /// Reads an audio frame: its samples and where they start, or nothing when it falls in a
    /// quiet stretch the host announced. The frames it holds count as pushed to the sink.
    pub fn frame(&mut self, frame: &[u8]) -> (r: Result<Option<(Vec<i16>, u64)>, FrameError>)
        ensures
            match read_header(frame@) {
                Err(error) => r == Err::<Option<(Vec<i16>, u64)>, FrameError>(error) && *final(self)
                    == *old(self),
                Ok(header) => if old(self).quiet_at matches Some(at) && header.first_sample >= at {
                    r == Ok::<Option<(Vec<i16>, u64)>, FrameError>(None) && *final(self) == *old(
                        self,
                    )
                } else {
                    r matches Ok(Some((samples, first))) && first == header.first_sample
                        && samples@ == pcm_of(frame@.skip(HEADER as int)) && final(self).pushed
                        == old(self).pushed.saturating_add(
                        (samples@.len() as int / (if old(self).format.channels == 0 {
                            1int
                        } else {
                            old(self).format.channels as int
                        })) as u64,
                    ) && *final(self) == (Follower { pushed: final(self).pushed, ..*old(self) })
                },
            },
    {
        let header = match Header::read(frame) {
            Ok(header) => header,
            Err(error) => return Err(error),
        };
        if let Some(at) = self.quiet_at {
            if header.first_sample >= at {
                return Ok(None);
            }
        }
        let samples = pcm(vstd::slice::slice_subrange(frame, HEADER, frame.len()));
        let channels: usize = if self.format.channels == 0 {
            1
        } else {
            self.format.channels as usize
        };
        let frames = samples.len() / channels;
        self.pushed = self.pushed.saturating_add(frames as u64);
        Ok(Some((samples, header.first_sample)))
    }

    /// What to do about the frame at `first_sample` once it is in the sink, given what the sink
    /// has played, the wall clock `now` and the monotonic `tick`, both in milliseconds: hold,
    /// nudge toward the host's schedule at most every `SLEW_GAP_MS`, or flush and start over.
    pub fn adjust(&mut self, first_sample: u64, played: u64, now: u64, tick: u64) -> (r: Adjust)
        ensures
            ({
                let offset = match best_of(old(self).clock.samples()) {
                    Some(best) => offset_of(best) as i64,
                    None => 0,
                };
                let error = error_of(
                    old(self).origin,
                    old(self).lead,
                    old(self).format.rate,
                    offset,
                    first_sample,
                    old(self).pushed,
                    played,
                    now,
                );
                match nudge_of(error) {
                    Nudge::Hold => r == Adjust::Hold && *final(self) == *old(self),
                    Nudge::Anchor => r == Adjust::Flush && *final(self) == *old(self),
                    Nudge::Slew(ppm) => if tick >= old(self).slewed_at && tick - old(self).slewed_at
                        >= SLEW_GAP_MS {
                        r == Adjust::Nudge(ppm) && *final(self) == (Follower {
                            slewed_at: tick,
                            ..*old(self)
                        })
                    } else {
                        r == Adjust::Hold && *final(self) == *old(self)
                    },
                }
            }),
    {
        let due = (play_at(self.origin, first_sample, self.format.rate, self.lead) as i64).wrapping_sub(
            self.clock.offset(),
        );
        let held = self.pushed.saturating_sub(played);
        let rate: u64 = if self.format.rate == 0 {
            1
        } else {
            self.format.rate as u64
        };
        let waiting = (held.wrapping_mul(1_000) / rate) as i64;
        let error = (now as i64).wrapping_add(waiting).wrapping_sub(due);
        if error == i64::MIN {
            return Adjust::Hold;
        }
        match correction(error) {
            Nudge::Hold => Adjust::Hold,
            Nudge::Anchor => Adjust::Flush,
            Nudge::Slew(ppm) => {
                if tick >= self.slewed_at && tick - self.slewed_at >= SLEW_GAP_MS {
                    self.slewed_at = tick;
                    Adjust::Nudge(ppm)
                } else {
                    Adjust::Hold
                }
            },
        }
    }

    /// The sink was flushed and has played `played` frames: that is all that went to it.
    pub fn flushed(&mut self, played: u64)
        ensures
            *final(self) == (Follower { pushed: played, ..*old(self) }),
    {
        self.pushed = played;
    }

    /// What a message from the host changes, heard at `now` by the wall clock: a mark moves the
    /// origin, and begins a quiet stretch or cuts what the sink holds; the lead changes; a pong
    /// is a clock sample; the track playing is passed on; an end or a refusal ends the session.
    pub fn heard(&mut self, message: FromHost, now: u64) -> (r: Outcome)
        ensures
            match message {
                FromHost::Mark { mark: MarkKind::Quiet, at, origin } => r is Quiet && *final(self)
                    == (Follower { origin, quiet_at: Some(at), ..*old(self) }),
                FromHost::Mark { mark: MarkKind::Cut, at: _, origin } => r is Flush && *final(self)
                    == (Follower { origin, quiet_at: None, ..*old(self) }),
                FromHost::Lead { lead_ms } => r is Quiet && *final(self) == (Follower {
                    lead: lead_ms,
                    ..*old(self)
                }),
                FromHost::Pong { t0, t1, t2 } => r is Quiet && final(self).clock.samples()
                    == crate::clock::window(old(self).clock.samples(), Sample { t0, t1, t2, t3: now })
                    && final(self).format == old(self).format && final(self).origin == old(
                    self,
                ).origin && final(self).lead == old(self).lead && final(self).quiet_at == old(
                    self,
                ).quiet_at && final(self).pushed == old(self).pushed && final(self).slewed_at
                    == old(self).slewed_at,
                FromHost::Now { title, artist, album, cover, duration_ms, provider } => r
                    == Outcome::Tell(
                    ReceiverEvent::Now(
                        Playing { title, artist, album, cover, duration_ms, provider },
                    ),
                ) && *final(self) == *old(self),
                FromHost::Ended { reason } => r == Outcome::Leave(ReceiverEvent::Ended(reason))
                    && *final(self) == *old(self),
                FromHost::Refused { reason } => r == Outcome::Leave(ReceiverEvent::Refused(reason))
                    && *final(self) == *old(self),
                _ => r is Quiet && *final(self) == *old(self),
            },
    {
        match message {
            FromHost::Mark { mark: MarkKind::Quiet, at, origin } => {
                self.origin = origin;
                self.quiet_at = Some(at);
                Outcome::Quiet
            },
            FromHost::Mark { mark: MarkKind::Cut, at: _, origin } => {
                self.origin = origin;
                self.quiet_at = None;
                Outcome::Flush
            },
            FromHost::Lead { lead_ms } => {
                self.lead = lead_ms;
                Outcome::Quiet
            },
            FromHost::Pong { t0, t1, t2 } => {
                self.clock.push(Sample { t0, t1, t2, t3: now });
                Outcome::Quiet
            },
            FromHost::Now { title, artist, album, cover, duration_ms, provider } => {
                Outcome::Tell(
                    ReceiverEvent::Now(
                        Playing { title, artist, album, cover, duration_ms, provider },
                    ),
                )
            },
            FromHost::Ended { reason } => Outcome::Leave(ReceiverEvent::Ended(reason)),
            FromHost::Refused { reason } => Outcome::Leave(ReceiverEvent::Refused(reason)),
            _ => Outcome::Quiet,
        }
    }
}


/// The lowercase hex digit for `d`, below 16.
pub open spec fn hex_char(d: int) -> char {
    seq!['0', '1', '2', '3', '4', '5', '6', '7', '8', '9', 'a', 'b', 'c', 'd', 'e', 'f'][d]
}

/// The last `count` hex digits of `n`, most significant first, zeros in front.
pub open spec fn hex_digits(n: nat, count: nat) -> Seq<char>
    decreases count,
{
    if count == 0 {
        Seq::empty()
    } else {
        hex_digits(n / 16, (count - 1) as nat).push(hex_char((n % 16) as int))
    }
}

/// A device id as the host is told it: 32 lowercase hex digits.
pub fn device_id(device: u128) -> (r: String)
    ensures
        r@ == hex_digits(device as nat, 32),
{
    let digits: [char; 16] = ['0', '1', '2', '3', '4', '5', '6', '7', '8', '9', 'a', 'b', 'c', 'd', 'e', 'f'];
    let mut tail: Vec<char> = Vec::new();
    let mut value: u128 = device;
    let mut k: usize = 0;
    assert(tail@ =~= Seq::<char>::empty());
    while k < 32
        invariant
            k <= 32,
            digits@ == seq!['0', '1', '2', '3', '4', '5', '6', '7', '8', '9', 'a', 'b', 'c', 'd', 'e', 'f'],
            hex_digits(device as nat, 32) == hex_digits(value as nat, (32 - k) as nat) + tail@,
        decreases 32 - k,
    {
        let d = value % 16;
        let ghost before = tail@;
        proof {
            assert(hex_digits(value as nat, (32 - k) as nat) == hex_digits(
                (value / 16) as nat,
                (31 - k) as nat,
            ).push(hex_char(d as int)));
        }
        tail.insert(0, digits[d as usize]);
        assert(tail@ =~= seq![hex_char(d as int)] + before);
        value = value / 16;
        k = k + 1;
        assert(hex_digits(device as nat, 32) =~= hex_digits(value as nat, (32 - k) as nat) + tail@);
    }
    assert(hex_digits(value as nat, 0) =~= Seq::<char>::empty());
    assert(tail@ =~= hex_digits(device as nat, 32));
    crate::text::string_of(&tail)
}

/// Whether `message` is the hello a listener called `name` sends to join with `code` from
/// device `device`: this protocol, in the app, the device as 32 lowercase hex digits, and
/// 16-bit audio as the one codec it takes.
pub open spec fn is_hello(message: FromReceiver, name: Seq<char>, code: Seq<char>, device: u128) -> bool {
    &&& message matches FromReceiver::Hello {
        protocol,
        name: given,
        native,
        code: joined_with,
        device: id,
        accepts,
    }
    &&& protocol == PROTOCOL && given@ == name && native && joined_with@ == code
    &&& id@ == hex_digits(device as nat, 32)
    &&& accepts@ == seq![Codec::Pcm16]
}

/// The hello a listener called `name` sends to join with `code` from device `device`.
pub fn hello(name: &str, code: &str, device: u128) -> (r: FromReceiver)
    ensures
        is_hello(r, name@, code@, device),
{
    let accepts = vec![Codec::Pcm16];
    assert(accepts@ =~= seq![Codec::Pcm16]);
    FromReceiver::Hello {
        protocol: PROTOCOL,
        name: name.to_owned(),
        native: true,
        code: code.to_owned(),
        device: device_id(device),
        accepts,
    }
}

/// A device id picked at random by fastrand's thread-local generator; any value may come.
#[verifier::external_body]
fn random_device() -> (r: u128) {
    fastrand::u128(..)
}

/// The hello a listener called `name` sends to join with `code`, from a device picked at
/// random for this connection.
pub fn fresh_hello(name: &str, code: &str) -> (r: FromReceiver)
    ensures
        exists|device: u128| is_hello(r, name@, code@, device),
{
    let device = random_device();
    hello(name, code, device)
}

impl Greeting {
    /// What the player is told of the host's answer: a welcome tells it the room once the
    /// listener's sink is open, a refusal tells it why, after which the listener stops with no
    /// failure; anything else tells it nothing and fails the connection.
    pub fn event(&self) -> (r: Option<ReceiverEvent>)
        ensures
            match *self {
                Greeting::Welcome { room, follower: _ } => r matches Some(ReceiverEvent::Welcomed(named))
                    && named@ == room@,
                Greeting::Refused(reason) => r matches Some(ReceiverEvent::Refused(why)) && why == reason,
                Greeting::OutOfTurn => r is None,
            },
    {
        match self {
            Greeting::Welcome { room, follower: _ } => Some(ReceiverEvent::Welcomed(room.clone())),
            Greeting::Refused(reason) => Some(ReceiverEvent::Refused(*reason)),
            Greeting::OutOfTurn => None,
        }
    }

    /// Whether the connection failed: the host spoke out of turn.
    pub fn failed(&self) -> (r: bool)
        ensures
            r == (*self is OutOfTurn),
    {
        match self {
            Greeting::OutOfTurn => true,
            _ => false,
        }
    }
}

} // verus!
