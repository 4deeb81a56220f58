//! The host's side of a jam, as decisions: who is let in, who is kept out for asking too
//! often, and what the host does about each thing that happens while a listener is connected.
//! The sockets, timers and channels stay with the caller, which hands each happening in and
//! carries out the steps that come back.

use std::collections::HashMap;

use vstd::prelude::*;

use crate::jam::{Listener, ListenerView};
use crate::text::chars_of;
use crate::track::same_text;
use crate::wire::{
    header_bytes, Codec, Denial, Farewell, Format, FromHost, FromReceiver, Header, MarkKind,
    Refusal, PROTOCOL,
};

verus! {

broadcast use vstd::std_specs::hash::group_hash_axioms;

/// How many unknown requests a peer may make in a window before it is turned away.
pub const STRIKES: u64 = 5;
/// How long a window of strikes lasts, in milliseconds.
pub const WINDOW_MS: u64 = 60_000;
/// How many listeners a room holds.
pub const LISTENERS: usize = 8;
/// How many tracks one listener may add in a session.
pub const ADDS: usize = 50;

/// What is playing, as the host tells its listeners.
#[derive(Clone, Debug, PartialEq, Eq)]
pub struct Playing {
    pub title: String,
    pub artist: String,
    pub album: String,
    pub cover: Option<String>,
    pub duration_ms: u64,
    pub provider: String,
}

/// Whether the host plays, and where in the track it is.
#[derive(Clone, Copy, Debug, PartialEq, Eq, Structural)]
pub struct Transport {
    pub playing: bool,
    pub position_ms: u64,
}

impl Default for Transport {
    fn default() -> (r: Self)
        ensures
            r == (Transport { playing: false, position_ms: 0 }),
    {
        Transport { playing: false, position_ms: 0 }
    }
}

/// Why a listener is not let in, if it is not: it speaks another protocol, it cannot play the
/// host's codec, or the room is full.
pub open spec fn refusal_spec(protocol: u32, accepts: Seq<Codec>, listeners: int) -> Option<Refusal> {
    if protocol != PROTOCOL {
        Some(Refusal::Protocol)
    } else if !accepts.contains(Codec::Pcm16) {
        Some(Refusal::Codec)
    } else if listeners >= LISTENERS {
        Some(Refusal::Full)
    } else {
        None
    }
}

/// Why a listener that said hello is not let in, or nothing when it is.
pub fn refusal(protocol: u32, accepts: &Vec<Codec>, listeners: usize) -> (r: Option<Refusal>)
    ensures
        r == refusal_spec(protocol, accepts@, listeners as int),
{
    if protocol != PROTOCOL {
        return Some(Refusal::Protocol);
    }
    let mut i: usize = 0;
    let mut plays = false;
    while i < accepts.len()
        invariant
            i <= accepts@.len(),
            plays == accepts@.subrange(0, i as int).contains(Codec::Pcm16),
        decreases accepts@.len() - i,
    {
        let ghost before = accepts@.subrange(0, i as int);
        assert(accepts@.subrange(0, i + 1) =~= before.push(accepts@[i as int]));
        if accepts[i] == Codec::Pcm16 {
            assert(accepts@.subrange(0, i + 1)[i as int] == Codec::Pcm16);
            plays = true;
        } else if plays {
            let ghost k = choose|k: int| 0 <= k < before.len() && before[k] == Codec::Pcm16;
            assert(accepts@.subrange(0, i + 1)[k] == Codec::Pcm16);
        }
        i = i + 1;
    }
    assert(accepts@.subrange(0, i as int) =~= accepts@);
    if !plays {
        return Some(Refusal::Codec);
    }
    if listeners >= LISTENERS {
        return Some(Refusal::Full);
    }
    None
}

/// How long ago `since` was at `now`, in milliseconds; never less than nothing.
pub open spec fn elapsed(now: u64, since: u64) -> int {
    if now >= since {
        now - since
    } else {
        0
    }
}

/// The peers that asked for what is not there, each with how often and since when.
pub struct Limits {
    entries: HashMap<u128, (u64, u64)>,
}

/// Whether a peer with `record` is kept out at `now`.
pub open spec fn blocked_spec(record: Option<(u64, u64)>, now: u64) -> bool {
    match record {
        Some((count, since)) => count >= STRIKES && elapsed(now, since) < WINDOW_MS,
        None => false,
    }
}

/// The record a peer keeps after it was looked at: one whose window has passed is dropped.
pub open spec fn looked_at(record: Option<(u64, u64)>, now: u64) -> Option<(u64, u64)> {
    match record {
        Some((count, since)) => if elapsed(now, since) >= WINDOW_MS {
            None
        } else {
            Some((count, since))
        },
        None => None,
    }
}

/// The record a peer keeps after one more strike: a window that has passed starts over.
pub open spec fn struck(record: Option<(u64, u64)>, now: u64) -> (u64, u64) {
    match record {
        Some((count, since)) => if elapsed(now, since) >= WINDOW_MS {
            (1, now)
        } else {
            ((count + 1) as u64, since)
        },
        None => (1, now),
    }
}

impl Limits {
    /// The strikes of `peer` and when its window opened, if it has any.
    pub closed spec fn record(&self, peer: u128) -> Option<(u64, u64)> {
        if self.entries@.contains_key(peer) {
            Some(self.entries@[peer])
        } else {
            None
        }
    }

    /// Nobody struck.
    pub fn new() -> (r: Limits)
        ensures
            forall|peer: u128| r.record(peer) is None,
    {
        Limits { entries: HashMap::new() }
    }

    /// How often `peer` was struck in its current window.
    pub fn strikes(&self, peer: u128) -> (r: u64)
        ensures
            r == match self.record(peer) {
                Some((count, _)) => count,
                None => 0,
            },
    {
        match self.entries.get(&peer) {
            Some(record) => record.0,
            None => 0,
        }
    }

    /// Whether `peer` is kept out at `now`: it struck out in a window that is still open. A
    /// record whose window has passed is dropped on the way.
    pub fn blocked(&mut self, peer: u128, now: u64) -> (r: bool)
        ensures
            r == blocked_spec(old(self).record(peer), now),
            final(self).record(peer) == looked_at(old(self).record(peer), now),
            forall|other: u128| other != peer ==> final(self).record(other) == old(self).record(other),
    {
        let (count, since) = match self.entries.get(&peer) {
            Some(record) => *record,
            None => {
                return false;
            },
        };
        let gone = now.saturating_sub(since);
        if count >= STRIKES && gone < WINDOW_MS {
            true
        } else if gone >= WINDOW_MS {
            self.entries.remove(&peer);
            false
        } else {
            false
        }
    }

    /// Counts one more request from `peer` for what is not there, at `now`. A window that has
    /// passed starts over.
    pub fn strike(&mut self, peer: u128, now: u64)
        requires
            match old(self).record(peer) {
                Some((count, _)) => count < u64::MAX,
                None => true,
            },
        ensures
            final(self).record(peer) == Some(struck(old(self).record(peer), now)),
            forall|other: u128| other != peer ==> final(self).record(other) == old(self).record(other),
    {
        let record = match self.entries.get(&peer) {
            None => (1, now),
            Some(record) => if now.saturating_sub(record.1) >= WINDOW_MS {
                (1, now)
            } else {
                (record.0 + 1, record.1)
            },
        };
        self.entries.insert(peer, record);
    }
}

/// A peer that strikes out is kept out for the rest of its window: `STRIKES` strikes within a
/// window, with no reset, leave it blocked at any time before the window ends.
pub proof fn lemma_struck_out_is_blocked(since: u64, now: u64, later: u64)
    requires
        since <= now,
        now - since < WINDOW_MS,
        now <= later,
        later - since < WINDOW_MS,
    ensures
        blocked_spec(Some((STRIKES, since)), later),
        !blocked_spec(Some(((STRIKES - 1) as u64, since)), later),
        struck(Some(((STRIKES - 1) as u64, since)), now) == (STRIKES, since),
{
}

/// A window that has passed forgives: the record is dropped when the peer is looked at, and a
/// new strike starts a new window.
pub proof fn lemma_window_forgives(count: u64, since: u64, now: u64)
    requires
        since <= now,
        now - since >= WINDOW_MS,
    ensures
        !blocked_spec(Some((count, since)), now),
        looked_at(Some((count, since)), now) is None,
        struck(Some((count, since)), now) == (1u64, now),
{
}

/// A request a listener made that the host answers later.
#[derive(Clone, Debug, PartialEq, Eq)]
pub enum Asked {
    /// A search.
    Find(String),
    /// A track to add to the queue.
    Add(String),
}

/// Something that happened while a listener is connected.
pub enum Happening {
    /// A chunk of the broadcast: a mark, if it carries one, and its audio; `origin` is the
    /// broadcast's origin when it came.
    Chunk { mark: Option<MarkKind>, header: Header, bytes: Vec<u8>, origin: u64 },
    /// The listener fell behind and chunks were lost.
    Lagged { origin: u64 },
    /// The host moved: it plays or pauses, or seeks.
    Moved(Transport),
    /// Another track plays, or none.
    Now(Option<Playing>),
    /// A message the host has for this listener.
    Queued(FromHost),
    /// The host turned a listener out, named by its address.
    Kicked(String),
    /// The listener said something: what it said, if it reads as a message, with the host's
    /// clock when it was heard (`t1`) and when the answer goes out (`t2`).
    Heard { message: Option<FromReceiver>, t1: u64, t2: u64 },
    /// The listener's socket, or one of the host's feeds, is gone.
    Gone,
}

/// What the host does about a happening.
#[derive(Debug)]
pub enum Step {
    /// Tell the listener this.
    Say(FromHost),
    /// Send the listener this audio frame.
    Frame(Vec<u8>),
    /// Ask the player, and tell the listener the answer when it comes.
    Ask(Asked),
    /// Queue this for the listener, behind what is queued already.
    Queue(FromHost),
    /// Close the socket.
    Close,
    /// End the session.
    Stop,
}

/// One listener's session: where it connects from, and how many tracks it added.
pub struct Session {
    pub at: String,
    pub added: usize,
}

impl Session {
    /// A session for the listener at `at`, that has added nothing yet.
    pub fn new(at: String) -> (r: Session)
        ensures
            r.at == at,
            r.added == 0,
    {
        Session { at, added: 0 }
    }

    /// What the host does about `happening`, in order.
    pub fn step(&mut self, happening: Happening) -> (steps: Vec<Step>)
        requires
            old(self).added < usize::MAX,
        ensures
            final(self).at == old(self).at,
            match happening {
                Happening::Chunk { mark, header, bytes, origin } => {
                    &&& final(self).added == old(self).added
                    &&& steps@.len() == (if mark is Some {
                        1int
                    } else {
                        0
                    }) + (if bytes@.len() > 0 {
                        1int
                    } else {
                        0
                    })
                    &&& (mark matches Some(mark) ==> steps@[0] == Step::Say(
                        FromHost::Mark { mark, at: header.first_sample, origin },
                    ))
                    &&& (bytes@.len() > 0 ==> (steps@.last() matches Step::Frame(frame) && frame@
                        == header_bytes(header) + bytes@))
                },
                Happening::Lagged { origin } => final(self).added == old(self).added && steps@
                    == seq![Step::Say(FromHost::Mark { mark: MarkKind::Cut, at: 0, origin })],
                Happening::Moved(transport) => final(self).added == old(self).added && steps@
                    == seq![
                    Step::Say(
                        FromHost::Transport {
                            playing: transport.playing,
                            position_ms: transport.position_ms,
                        },
                    ),
                ],
                Happening::Now(playing) => final(self).added == old(self).added && match playing {
                    Some(p) => steps@ == seq![
                        Step::Say(
                            FromHost::Now {
                                title: p.title,
                                artist: p.artist,
                                album: p.album,
                                cover: p.cover,
                                duration_ms: p.duration_ms,
                                provider: p.provider,
                            },
                        ),
                    ],
                    None => steps@ == Seq::<Step>::empty(),
                },
                Happening::Queued(message) => final(self).added == old(self).added && steps@
                    == seq![Step::Say(message)],
                Happening::Kicked(target) => final(self).added == old(self).added && if target@
                    == old(self).at@ {
                    steps@ == seq![
                        Step::Say(FromHost::Ended { reason: Farewell::Kicked }),
                        Step::Close,
                        Step::Stop,
                    ]
                } else {
                    steps@ == Seq::<Step>::empty()
                },
                Happening::Heard { message, t1, t2 } => match message {
                    Some(FromReceiver::Ping { t0, need: _ }) => final(self).added == old(
                        self,
                    ).added && steps@ == seq![Step::Say(FromHost::Pong { t0, t1, t2 })],
                    Some(FromReceiver::Find { query }) => final(self).added == old(self).added
                        && steps@ == seq![Step::Ask(Asked::Find(query))],
                    Some(FromReceiver::Add { id }) => final(self).added == old(self).added + 1
                        && if final(self).added > ADDS {
                        steps@ == seq![Step::Queue(FromHost::Denied { reason: Denial::Busy })]
                    } else {
                        steps@ == seq![Step::Ask(Asked::Add(id))]
                    },
                    Some(FromReceiver::Bye) => final(self).added == old(self).added && steps@
                        == seq![Step::Stop],
                    _ => final(self).added == old(self).added && steps@ == Seq::<Step>::empty(),
                },
                Happening::Gone => final(self).added == old(self).added && steps@ == seq![
                    Step::Stop,
                ],
            },
    {
        let mut steps: Vec<Step> = Vec::new();
        match happening {
            Happening::Chunk { mark, header, bytes, origin } => {
                if let Some(mark) = mark {
                    steps.push(Step::Say(FromHost::Mark { mark, at: header.first_sample, origin }));
                }
                if bytes.len() > 0 {
                    let mut frame: Vec<u8> = Vec::new();
                    header.write(&mut frame);
                    let mut i: usize = 0;
                    let ghost head = frame@;
                    while i < bytes.len()
                        invariant
                            i <= bytes@.len(),
                            head == header_bytes(header),
                            frame@ == head + bytes@.subrange(0, i as int),
                        decreases bytes@.len() - i,
                    {
                        frame.push(bytes[i]);
                        i = i + 1;
                        assert(frame@ =~= head + bytes@.subrange(0, i as int));
                    }
                    assert(bytes@.subrange(0, i as int) =~= bytes@);
                    steps.push(Step::Frame(frame));
                }
            },
            Happening::Lagged { origin } => {
                steps.push(Step::Say(FromHost::Mark { mark: MarkKind::Cut, at: 0, origin }));
            },
            Happening::Moved(transport) => {
                steps.push(
                    Step::Say(
                        FromHost::Transport {
                            playing: transport.playing,
                            position_ms: transport.position_ms,
                        },
                    ),
                );
            },
            Happening::Now(playing) => {
                if let Some(p) = playing {
                    steps.push(
                        Step::Say(
                            FromHost::Now {
                                title: p.title,
                                artist: p.artist,
                                album: p.album,
                                cover: p.cover,
                                duration_ms: p.duration_ms,
                                provider: p.provider,
                            },
                        ),
                    );
                }
            },
            Happening::Queued(message) => {
                steps.push(Step::Say(message));
            },
            Happening::Kicked(target) => {
                if same_text(&target, &self.at) {
                    steps.push(Step::Say(FromHost::Ended { reason: Farewell::Kicked }));
                    steps.push(Step::Close);
                    steps.push(Step::Stop);
                }
            },
            Happening::Heard { message, t1, t2 } => {
                match message {
                    Some(FromReceiver::Ping { t0, need: _ }) => {
                        steps.push(Step::Say(FromHost::Pong { t0, t1, t2 }));
                    },
                    Some(FromReceiver::Find { query }) => {
                        steps.push(Step::Ask(Asked::Find(query)));
                    },
                    Some(FromReceiver::Add { id }) => {
                        self.added = self.added + 1;
                        if self.added > ADDS {
                            steps.push(Step::Queue(FromHost::Denied { reason: Denial::Busy }));
                        } else {
                            steps.push(Step::Ask(Asked::Add(id)));
                        }
                    },
                    Some(FromReceiver::Bye) => {
                        steps.push(Step::Stop);
                    },
                    _ => {},
                }
            },
            Happening::Gone => {
                steps.push(Step::Stop);
            },
        }
        steps
    }
}

/// How the host answers an HTTP request.
#[derive(Clone, Copy, Debug, PartialEq, Eq, Structural)]
pub enum Answer {
    /// Too many requests: the peer struck out.
    TooMany,
    /// The room's page.
    Page,
    /// The socket a listener follows the room on.
    Upgrade,
    /// A socket request without a key.
    BadRequest,
    /// Nothing here, which counts against the peer.
    NotFound,
}

/// The path of a room's page.
pub open spec fn page_path(code: Seq<char>) -> Seq<char> {
    seq!['/', 'c', '/'] + code
}

/// The path of a room's socket.
pub open spec fn socket_path(code: Seq<char>) -> Seq<char> {
    page_path(code) + seq!['/', 'w', 's']
}

/// ASCII letters folded to lower case, every other character kept.
pub open spec fn fold_ascii(text: Seq<char>) -> Seq<char> {
    text.map_values(|c: char| if 'A' <= c <= 'Z' { ((c as int) + 32) as char } else { c })
}

/// Whether a request asks to become a websocket: its `Upgrade` header, read as text, is
/// `websocket` in any case.
pub open spec fn upgrading_spec(upgrade: Option<Seq<char>>) -> bool {
    match upgrade {
        Some(value) => fold_ascii(value) == seq!['w', 'e', 'b', 's', 'o', 'c', 'k', 'e', 't'],
        None => false,
    }
}

/// How the host answers a request that is not from a peer kept out.
pub open spec fn route_spec(
    get: bool,
    path: Seq<char>,
    code: Seq<char>,
    upgrade: Option<Seq<char>>,
    has_key: bool,
) -> Answer {
    if get && path == page_path(code) {
        Answer::Page
    } else if path == socket_path(code) && upgrading_spec(upgrade) {
        if has_key {
            Answer::Upgrade
        } else {
            Answer::BadRequest
        }
    } else {
        Answer::NotFound
    }
}

/// An ASCII capital in lower case, anything else as it is.
fn fold_char(c: char) -> (r: char)
    ensures
        r == (if 'A' <= c <= 'Z' {
            ((c as int) + 32) as char
        } else {
            c
        }),
{
    if 'A' <= c && c <= 'Z' {
        ((c as u8) + 32) as char
    } else {
        c
    }
}

/// Whether `value` reads `websocket` in any case.
pub fn upgrading(upgrade: Option<&str>) -> (r: bool)
    ensures
        r == upgrading_spec(
            match upgrade {
                Some(value) => Some(value@),
                None => None,
            },
        ),
{
    let value = match upgrade {
        Some(value) => chars_of(value),
        None => return false,
    };
    let wanted: [char; 9] = ['w', 'e', 'b', 's', 'o', 'c', 'k', 'e', 't'];
    let ghost word = seq!['w', 'e', 'b', 's', 'o', 'c', 'k', 'e', 't'];
    assert(wanted@ =~= word);
    if value.len() != 9 {
        assert(fold_ascii(value@).len() != word.len());
        return false;
    }
    let mut i: usize = 0;
    while i < 9
        invariant
            i <= 9,
            value@.len() == 9,
            upgrade matches Some(v) && value@ == v@,
            word == seq!['w', 'e', 'b', 's', 'o', 'c', 'k', 'e', 't'],
            wanted@ == word,
            forall|j: int| 0 <= j < i ==> fold_ascii(value@)[j] == word[j],
        decreases 9 - i,
    {
        if fold_char(value[i]) != wanted[i] {
            assert(fold_ascii(value@)[i as int] != word[i as int]);
            assert(fold_ascii(value@) != word);
            return false;
        }
        i = i + 1;
    }
    assert(fold_ascii(value@) =~= word);
    true
}

/// Whether `path` is `prefix` and then `rest`.
fn spells(path: &Vec<char>, prefix: &Vec<char>, rest: &[char]) -> (r: bool)
    ensures
        r == (path@ == prefix@ + rest@),
{
    if path.len() < prefix.len() || path.len() - prefix.len() != rest.len() {
        assert((prefix@ + rest@).len() != path@.len());
        return false;
    }
    let mut i: usize = 0;
    while i < path.len()
        invariant
            i <= path@.len(),
            path@.len() == prefix@.len() + rest@.len(),
            forall|j: int| 0 <= j < i ==> path@[j] == (prefix@ + rest@)[j],
        decreases path@.len() - i,
    {
        let expected = if i < prefix.len() {
            prefix[i]
        } else {
            rest[i - prefix.len()]
        };
        if path[i] != expected {
            assert(path@[i as int] != (prefix@ + rest@)[i as int]);
            return false;
        }
        i = i + 1;
    }
    assert(path@ =~= prefix@ + rest@);
    true
}

/// How the host answers a request from `peer` at `now`: a peer that struck out is refused;
/// a GET of the room's page gets the page; a request for the room's socket that asks to become
/// a websocket is upgraded when it carries a key, refused otherwise; anything else is not found
/// and counts against the peer.
pub fn route(
    limits: &mut Limits,
    peer: u128,
    now: u64,
    get: bool,
    path: &str,
    code: &str,
    upgrade: Option<&str>,
    has_key: bool,
) -> (r: Answer)
    ensures
        ({
            let record = old(limits).record(peer);
            let looked = looked_at(record, now);
            if blocked_spec(record, now) {
                r == Answer::TooMany && final(limits).record(peer) == looked
            } else {
                let answer = route_spec(
                    get,
                    path@,
                    code@,
                    match upgrade {
                        Some(value) => Some(value@),
                        None => None,
                    },
                    has_key,
                );
                &&& r == answer
                &&& final(limits).record(peer) == if answer == Answer::NotFound {
                    Some(struck(looked, now))
                } else {
                    looked
                }
            }
        }),
        forall|other: u128| other != peer ==> final(limits).record(other) == old(limits).record(other),
{
    if limits.blocked(peer, now) {
        return Answer::TooMany;
    }
    let path = chars_of(path);
    let code = chars_of(code);
    let mut page: Vec<char> = Vec::new();
    page.push('/');
    page.push('c');
    page.push('/');
    let ghost head = page@;
    assert(head =~= seq!['/', 'c', '/']);
    let mut tail = code.clone();
    page.append(&mut tail);
    let none: [char; 0] = [];
    let ws: [char; 3] = ['/', 'w', 's'];
    assert(none@ =~= Seq::<char>::empty());
    assert(ws@ =~= seq!['/', 'w', 's']);
    assert(page@ + none@ =~= page@);
    if get && spells(&path, &page, &none) {
        return Answer::Page;
    }
    if spells(&path, &page, &ws) && upgrading(upgrade) {
        if has_key {
            return Answer::Upgrade;
        }
        return Answer::BadRequest;
    }
    limits.strike(peer, now);
    Answer::NotFound
}


/// How the host opens a session: what it first says to the listener, and the listener it
/// seats and announces, when it lets it in. A listener turned away is neither counted nor
/// announced, and its socket is closed once it is told.
pub struct Opening {
    pub say: FromHost,
    pub joined: Option<Listener>,
}

/// How the host answers the first message of a listener at `at`, with `listeners` seated and
/// the broadcast's format `format` (nothing when none came in time), in the room `room` with
/// lead `lead_ms` and origin `origin`. Nothing when the first message is not a hello: the
/// session ends without a word. Otherwise the refusal that `refusal` gives, or `Closed` when
/// no format came, or a welcome with the protocol, the room, the format, the lead and the
/// origin, the listener then seated with the name, device and kind it gave and no need yet.
pub fn opening(
    first: FromReceiver,
    at: &String,
    listeners: usize,
    format: Option<Format>,
    room: &String,
    lead_ms: u32,
    origin: u64,
) -> (r: Option<Opening>)
    ensures
        match first {
            FromReceiver::Hello { protocol, name, native, code: _, device, accepts } => {
                &&& r matches Some(opened)
                &&& match refusal_spec(protocol, accepts@, listeners as int) {
                    Some(reason) => opened.say == (FromHost::Refused { reason })
                        && opened.joined is None,
                    None => match format {
                        None => opened.say == (FromHost::Refused { reason: Refusal::Closed })
                            && opened.joined is None,
                        Some(f) => {
                            &&& opened.say matches FromHost::Welcome {
                                protocol: p,
                                room: named,
                                format: g,
                                lead_ms: l,
                                origin: o,
                            }
                            &&& p == PROTOCOL && named@ == room@ && g == f && l == lead_ms && o
                                == origin
                            &&& opened.joined matches Some(seated)
                            &&& seated@ == (ListenerView {
                                name: name@,
                                at: at@,
                                device: device@,
                                native,
                                need: 0,
                            })
                        },
                    },
                }
            },
            _ => r is None,
        },
{
    match first {
        FromReceiver::Hello { protocol, name, native, code: _, device, accepts } => {
            match refusal(protocol, &accepts, listeners) {
                Some(reason) => Some(Opening { say: FromHost::Refused { reason }, joined: None }),
                None => match format {
                    None => Some(
                        Opening { say: FromHost::Refused { reason: Refusal::Closed }, joined: None },
                    ),
                    Some(f) => Some(
                        Opening {
                            say: FromHost::Welcome {
                                protocol: PROTOCOL,
                                room: room.clone(),
                                format: f,
                                lead_ms,
                                origin,
                            },
                            joined: Some(
                                Listener { name, at: at.clone(), device, native, need: 0 },
                            ),
                        },
                    ),
                },
            }
        },
        _ => None,
    }
}

} // verus!
