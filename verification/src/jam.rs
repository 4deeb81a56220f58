//! The jam as the player runs it, as decisions: who is in the room and what each listener
//! needs, where a jump in the queue lands, and which rows of the queue the room is shown.

use vstd::prelude::*;

use crate::alike::{lemma_views_push, views_of, Alike};
use crate::track::{same_text, Track};
use crate::receiver::ReceiverEvent;
use crate::server::Playing;
use crate::text::string_of;
use crate::wire::{Hit, HitView, Refusal};

verus! {

/// How many played tracks the room is shown.
pub const BEHIND: usize = 3;
/// How many upcoming tracks the room is shown.
pub const AHEAD: usize = 50;

/// A listener in the room: what it is called, where it connects from, its device, whether it
/// listens in the app, and how much buffer it asked for.
#[derive(Clone, Debug, PartialEq, Eq)]
pub struct Listener {
    pub name: String,
    pub at: String,
    pub device: String,
    pub native: bool,
    pub need: u32,
}

/// A listener as a plain value.
pub struct ListenerView {
    pub name: Seq<char>,
    pub at: Seq<char>,
    pub device: Seq<char>,
    pub native: bool,
    pub need: u32,
}

impl View for Listener {
    type V = ListenerView;

    open spec fn view(&self) -> ListenerView {
        ListenerView {
            name: self.name@,
            at: self.at@,
            device: self.device@,
            native: self.native,
            need: self.need,
        }
    }
}

/// What the player does in a jam.
#[derive(Clone, Debug, PartialEq, Eq)]
pub enum JamRole {
    Idle,
    Hosting {
        room: String,
        code: String,
        addresses: Vec<String>,
        listeners: Vec<Listener>,
        lead: u32,
    },
    Joining { at: String },
    Listening { room: String, host: String, at: String },
    Lost { at: String },
}

impl Default for JamRole {
    fn default() -> (r: Self)
        ensures
            r is Idle,
    {
        JamRole::Idle
    }
}

impl JamRole {
    /// Whether the player hosts a room.
    pub fn hosting(&self) -> (r: bool)
        ensures
            r == (*self is Hosting),
    {
        match self {
            JamRole::Hosting { .. } => true,
            _ => false,
        }
    }

    /// Whether the player follows a host, or is on its way to, or lost it.
    pub fn listening(&self) -> (r: bool)
        ensures
            r == (*self is Listening || *self is Joining || *self is Lost),
    {
        match self {
            JamRole::Listening { .. } | JamRole::Joining { .. } | JamRole::Lost { .. } => true,
            _ => false,
        }
    }
}

/// What the jam tells the views.
#[derive(Clone, Debug, PartialEq, Eq)]
pub enum JamEvent {
    Started,
    Stopped,
    Joined,
    Left,
    Refused(Refusal),
}

/// A change in the room, as the host's server reports it.
pub enum Roster {
    /// A listener came in.
    Joined(Listener),
    /// The listener at this address left.
    Left(String),
    /// The lead every listener buffers changed, with what each listener, by address, needs.
    Lead { lead_ms: u32, needs: Vec<(String, u32)> },
}

/// The listeners kept: none at address `at`, if one is given, and none on `device`, if one is
/// given, in order.
pub open spec fn kept_listeners(
    listeners: Seq<ListenerView>,
    at: Option<Seq<char>>,
    device: Option<Seq<char>>,
) -> Seq<ListenerView>
    decreases listeners.len(),
{
    if listeners.len() == 0 {
        Seq::empty()
    } else {
        let before = kept_listeners(listeners.drop_last(), at, device);
        let held = listeners.last();
        if (at matches Some(at) && held.at == at) || (device matches Some(device) && held.device
            == device) {
            before
        } else {
            before.push(held)
        }
    }
}

/// The listeners that stay when `listener` comes in: none at its address or on its device.
pub open spec fn others(listeners: Seq<ListenerView>, listener: ListenerView) -> Seq<ListenerView> {
    kept_listeners(listeners, Some(listener.at), Some(listener.device))
}

/// The listeners that stay when the one at `at` leaves.
pub open spec fn staying(listeners: Seq<ListenerView>, at: Seq<char>) -> Seq<ListenerView> {
    kept_listeners(listeners, Some(at), None)
}

/// What the listener at `at` needs: the first need named for its address, nothing otherwise.
pub open spec fn need_at(needs: Seq<(Seq<char>, u32)>, at: Seq<char>) -> u32
    decreases needs.len(),
{
    if needs.len() == 0 {
        0
    } else if needs[0].0 == at {
        needs[0].1
    } else {
        need_at(needs.drop_first(), at)
    }
}

/// Needs as plain values.
pub open spec fn needs_of(needs: Seq<(String, u32)>) -> Seq<(Seq<char>, u32)> {
    needs.map_values(|need: (String, u32)| (need.0@, need.1))
}

/// The listeners with their needs as named.
pub open spec fn with_needs(listeners: Seq<ListenerView>, needs: Seq<(Seq<char>, u32)>) -> Seq<ListenerView> {
    listeners.map_values(|held: ListenerView| ListenerView { need: need_at(needs, held.at), ..held })
}

/// The listeners without any on `device`.
pub open spec fn without_device(listeners: Seq<ListenerView>, device: Seq<char>) -> Seq<ListenerView> {
    kept_listeners(listeners, None, Some(device))
}

/// An optional text as a plain value.
pub open spec fn text_view(text: Option<&String>) -> Option<Seq<char>> {
    match text {
        Some(text) => Some(text@),
        None => None,
    }
}

/// Keeps the listeners that are neither at `at` nor on `device`, in order.
fn keep_listeners(listeners: &mut Vec<Listener>, at: Option<&String>, device: Option<&String>)
    ensures
        views_of(final(listeners)@) == kept_listeners(
            views_of(old(listeners)@),
            text_view(at),
            text_view(device),
        ),
{
    let mut all: Vec<Listener> = Vec::new();
    std::mem::swap(&mut all, listeners);
    let ghost before = all@;
    let mut i: usize = 0;
    assert(views_of(listeners@) =~= kept_listeners(
        views_of(before.subrange(0, 0)),
        text_view(at),
        text_view(device),
    ));
    while i < all.len()
        invariant
            i <= all@.len(),
            all@ == before,
            views_of(listeners@) == kept_listeners(
                views_of(before.subrange(0, i as int)),
                text_view(at),
                text_view(device),
            ),
        decreases all@.len() - i,
    {
        let held = &all[i];
        let here = match at {
            Some(at) => same_text(&held.at, at),
            None => false,
        };
        let on = match device {
            Some(device) => same_text(&held.device, device),
            None => false,
        };
        proof {
            let upto = views_of(before.subrange(0, i + 1));
            assert(upto.drop_last() =~= views_of(before.subrange(0, i as int)));
            assert(upto.last() == before[i as int]@);
        }
        if !here && !on {
            let ghost kept = listeners@;
            let copy = Listener {
                name: held.name.clone(),
                at: held.at.clone(),
                device: held.device.clone(),
                native: held.native,
                need: held.need,
            };
            listeners.push(copy);
            proof {
                lemma_views_push(kept, listeners@.last());
                assert(kept.push(listeners@.last()) =~= listeners@);
            }
        }
        i = i + 1;
    }
    assert(before.subrange(0, i as int) =~= before);
}

/// What the listener at `at` needs, by `needs`.
fn need_for(needs: &Vec<(String, u32)>, at: &String) -> (r: u32)
    ensures
        r == need_at(needs_of(needs@), at@),
{
    let ghost all = needs_of(needs@);
    let mut i: usize = 0;
    assert(all.skip(0) =~= all);
    while i < needs.len()
        invariant
            i <= needs@.len(),
            all == needs_of(needs@),
            need_at(all, at@) == need_at(all.skip(i as int), at@),
        decreases needs@.len() - i,
    {
        assert(all.skip(i as int).drop_first() =~= all.skip(i + 1));
        assert(all.skip(i as int)[0] == (needs@[i as int].0@, needs@[i as int].1));
        if same_text(&needs[i].0, at) {
            return needs[i].1;
        }
        i = i + 1;
    }
    0
}

/// Changes the room of a host as the server reports: a listener that comes in replaces any at
/// its address or on its device and goes last; one that leaves is dropped; a new lead is taken
/// with each listener's need. Answers with what to tell the views and the device that joined,
/// which the caller grants the guests' rights unless it has its own; nothing when the player
/// hosts no room.
pub fn roster(role: &mut JamRole, event: Roster) -> (r: (Option<JamEvent>, Option<String>))
    ensures
        match *old(role) {
            JamRole::Hosting { room, code, addresses, listeners, lead } => match event {
                Roster::Joined(listener) => {
                    &&& r == (Some(JamEvent::Joined), Some(listener.device))
                    &&& *final(role) matches JamRole::Hosting {
                        room: room2,
                        code: code2,
                        addresses: addresses2,
                        listeners: listeners2,
                        lead: lead2,
                    }
                    &&& room2 == room && code2 == code && addresses2 == addresses && lead2 == lead
                    &&& views_of(listeners2@) == others(views_of(listeners@), listener@).push(
                        listener@,
                    )
                },
                Roster::Left(at) => {
                    &&& r == (Some(JamEvent::Left), None::<String>)
                    &&& *final(role) matches JamRole::Hosting {
                        room: room2,
                        code: code2,
                        addresses: addresses2,
                        listeners: listeners2,
                        lead: lead2,
                    }
                    &&& room2 == room && code2 == code && addresses2 == addresses && lead2 == lead
                    &&& views_of(listeners2@) == staying(views_of(listeners@), at@)
                },
                Roster::Lead { lead_ms, needs } => {
                    &&& r == (None::<JamEvent>, None::<String>)
                    &&& *final(role) matches JamRole::Hosting {
                        room: room2,
                        code: code2,
                        addresses: addresses2,
                        listeners: listeners2,
                        lead: lead2,
                    }
                    &&& room2 == room && code2 == code && addresses2 == addresses && lead2
                        == lead_ms
                    &&& views_of(listeners2@) == with_needs(views_of(listeners@), needs_of(needs@))
                },
            },
            _ => r == (None::<JamEvent>, None::<String>) && *final(role) == *old(role),
        },
{
    let mut taken = JamRole::Idle;
    std::mem::swap(&mut taken, role);
    match taken {
        JamRole::Hosting { room, code, addresses, mut listeners, lead } => {
            match event {
                Roster::Joined(listener) => {
                    let device = listener.device.clone();
                    keep_listeners(&mut listeners, Some(&listener.at), Some(&listener.device));
                    let ghost kept = listeners@;
                    listeners.push(listener);
                    proof {
                        lemma_views_push(kept, listeners@.last());
                        assert(kept.push(listeners@.last()) =~= listeners@);
                    }
                    *role = JamRole::Hosting { room, code, addresses, listeners, lead };
                    (Some(JamEvent::Joined), Some(device))
                },
                Roster::Left(at) => {
                    keep_listeners(&mut listeners, Some(&at), None);
                    *role = JamRole::Hosting { room, code, addresses, listeners, lead };
                    (Some(JamEvent::Left), None)
                },
                Roster::Lead { lead_ms, needs } => {
                    let ghost before = listeners@;
                    let mut i: usize = 0;
                    while i < listeners.len()
                        invariant
                            i <= listeners@.len(),
                            listeners@.len() == before.len(),
                            forall|k: int|
                                0 <= k < i ==> #[trigger] listeners@[k]@ == (ListenerView {
                                    need: need_at(needs_of(needs@), before[k]@.at),
                                    ..before[k]@
                                }),
                            forall|k: int| i <= k < listeners@.len() ==> #[trigger] listeners@[k]
                                == before[k],
                        decreases listeners@.len() - i,
                    {
                        let need = need_for(&needs, &listeners[i].at);
                        let held = &listeners[i];
                        let updated = Listener {
                            name: held.name.clone(),
                            at: held.at.clone(),
                            device: held.device.clone(),
                            native: held.native,
                            need,
                        };
                        listeners.set(i, updated);
                        i = i + 1;
                    }
                    assert(views_of(listeners@) =~= with_needs(views_of(before), needs_of(needs@)));
                    *role = JamRole::Hosting { room, code, addresses, listeners, lead: lead_ms };
                    (None, None)
                },
            }
        },
        other => {
            *role = other;
            (None, None)
        },
    }
}

/// Turns out the listeners on `device`.
pub fn kick(role: &mut JamRole, device: &String)
    ensures
        match *old(role) {
            JamRole::Hosting { room, code, addresses, listeners, lead } => {
                &&& *final(role) matches JamRole::Hosting {
                    room: room2,
                    code: code2,
                    addresses: addresses2,
                    listeners: listeners2,
                    lead: lead2,
                }
                &&& room2 == room && code2 == code && addresses2 == addresses && lead2 == lead
                &&& views_of(listeners2@) == without_device(views_of(listeners@), device@)
            },
            _ => *final(role) == *old(role),
        },
{
    let mut taken = JamRole::Idle;
    std::mem::swap(&mut taken, role);
    match taken {
        JamRole::Hosting { room, code, addresses, mut listeners, lead } => {
            keep_listeners(&mut listeners, None, Some(device));
            *role = JamRole::Hosting { room, code, addresses, listeners, lead };
        },
        other => {
            *role = other;
        },
    }
}

/// Where a jump of `index` rows from the playing track lands, given how many tracks were
/// played before it.
#[derive(Clone, Copy, Debug, PartialEq, Eq, Structural)]
pub enum Jump {
    /// Nowhere: the playing track stays.
    Stay,
    /// The upcoming track at this index.
    Ahead(usize),
    /// The played track at this index.
    Back(usize),
    /// Past the start of what was played: refused.
    Refused,
}

/// Where a jump of `index` rows lands.
pub open spec fn jump_spec(index: i32, behind: usize) -> Jump {
    if index == 0 {
        Jump::Stay
    } else if index > 0 {
        Jump::Ahead((index - 1) as usize)
    } else if behind + index >= 0 {
        Jump::Back((behind + index) as usize)
    } else {
        Jump::Refused
    }
}

/// How a jump counts rows from the playing track: `k` rows ahead is the `k`-th upcoming track
/// (index `k - 1`); `k` rows back, with `behind` tracks played, is the `k`-th most recently
/// played, which sits `k` places from the end of the history (index `behind - k`), so one row
/// back is the last played; more rows back than were played is refused; no rows is no jump.
pub proof fn lemma_jumps_count_rows(k: i32, behind: usize)
    ensures
        k == 0 ==> jump_spec(0, behind) == Jump::Stay,
        k > 0 ==> jump_spec(k, behind) == Jump::Ahead((k - 1) as usize),
        0 < k <= behind ==> (jump_spec((-k) as i32, behind) matches Jump::Back(at) && at + k == behind),
        0 < k && k > behind ==> jump_spec((-k) as i32, behind) == Jump::Refused,
        behind > 0 ==> jump_spec(-1i32, behind) == Jump::Back((behind - 1) as usize),
{
}

/// Where a jump of `index` rows from the playing track lands, with `behind` tracks played.
pub fn jump(index: i32, behind: usize) -> (r: Jump)
    ensures
        r == jump_spec(index, behind),
{
    if index == 0 {
        Jump::Stay
    } else if index > 0 {
        Jump::Ahead((index - 1) as usize)
    } else {
        let back = (-(index as i64)) as u64;
        if (behind as u64) >= back {
            Jump::Back(behind - back as usize)
        } else {
            Jump::Refused
        }
    }
}

/// A queue row as the room sees it: the track, and the provider its id belongs to.
pub fn row(track: &Track, provider: &str) -> (r: Hit)
    ensures
        r@ == (HitView {
            id: match track@.id {
                Some(id) => id,
                None => Seq::empty(),
            },
            title: track@.name,
            artist: track@.artists,
            album: track@.album,
            cover: track@.cover,
            duration_ms: track.duration_ms,
            provider: provider@,
        }),
{
    let id = match &track.id {
        Some(id) => id.clone(),
        None => String::new(),
    };
    Hit {
        id,
        title: track.name.clone(),
        artist: track.artists.clone(),
        album: track.album.clone(),
        cover: crate::track::copy_optional(&track.cover),
        duration_ms: track.duration_ms,
        provider: provider.to_owned(),
    }
}

/// The rows the room is shown: the last `BEHIND` played, the playing track, and the next
/// `AHEAD` upcoming.
pub open spec fn rows_spec(past: Seq<HitView>, current: Option<HitView>, upcoming: Seq<HitView>) -> Seq<HitView> {
    let behind = if past.len() < BEHIND {
        past.len() as int
    } else {
        BEHIND as int
    };
    let ahead = if upcoming.len() < AHEAD {
        upcoming.len() as int
    } else {
        AHEAD as int
    };
    past.skip(past.len() - behind) + (match current {
        Some(current) => seq![current],
        None => Seq::empty(),
    }) + upcoming.take(ahead)
}

/// Where the playing track is among the rows: after the played ones shown; -1 for none.
pub open spec fn at_spec(past_len: int, has_current: bool) -> int {
    if has_current {
        if past_len < BEHIND {
            past_len
        } else {
            BEHIND as int
        }
    } else {
        -1
    }
}

/// The rows the room is shown, and where the playing track is among them.
pub fn rows(past: &Vec<Hit>, current: Option<&Hit>, upcoming: &Vec<Hit>) -> (r: (Vec<Hit>, i32))
    ensures
        views_of(r.0@) == rows_spec(
            views_of(past@),
            match current {
                Some(current) => Some(current@),
                None => None,
            },
            views_of(upcoming@),
        ),
        r.1 as int == at_spec(past@.len() as int, current is Some),
{
    let behind = if past.len() < BEHIND {
        past.len()
    } else {
        BEHIND
    };
    let mut out: Vec<Hit> = Vec::new();
    let start = past.len() - behind;
    let mut i = start;
    while i < past.len()
        invariant
            start <= i <= past@.len(),
            start == past@.len() - behind,
            views_of(out@) == views_of(past@).subrange(start as int, i as int),
        decreases past@.len() - i,
    {
        let ghost before = out@;
        out.push(past[i].duplicate());
        proof {
            lemma_views_push(before, out@.last());
            assert(before.push(out@.last()) =~= out@);
        }
        i = i + 1;
        assert(views_of(out@) =~= views_of(past@).subrange(start as int, i as int));
    }
    let ghost shown = views_of(out@);
    let at: i32 = match current {
        Some(track) => {
            let ghost before = out@;
            out.push(track.duplicate());
            proof {
                lemma_views_push(before, out@.last());
                assert(before.push(out@.last()) =~= out@);
            }
            behind as i32
        },
        None => -1,
    };
    let ghost with_current = views_of(out@);
    let ahead = if upcoming.len() < AHEAD {
        upcoming.len()
    } else {
        AHEAD
    };
    let mut k: usize = 0;
    while k < ahead
        invariant
            k <= ahead,
            ahead <= upcoming@.len(),
            views_of(out@) == with_current + views_of(upcoming@).take(k as int),
        decreases ahead - k,
    {
        let ghost before = out@;
        out.push(upcoming[k].duplicate());
        proof {
            lemma_views_push(before, out@.last());
            assert(before.push(out@.last()) =~= out@);
        }
        k = k + 1;
        assert(views_of(out@) =~= with_current + views_of(upcoming@).take(k as int));
    }
    proof {
        assert(views_of(past@).subrange(start as int, past@.len() as int) =~= views_of(past@).skip(
            past@.len() - behind,
        ));
        assert(with_current =~= shown + match current {
            Some(current) => seq![current@],
            None => Seq::<HitView>::empty(),
        });
    }
    (out, at)
}


/// Starts following the host at `at`, unless the player already hosts a room or follows a
/// host: answers whether it did.
pub fn joining(role: &mut JamRole, at: &String) -> (r: bool)
    ensures
        r == !(*old(role) is Hosting || *old(role) is Listening || *old(role) is Joining
            || *old(role) is Lost),
        r ==> (*final(role) matches JamRole::Joining { at: joined } && joined@ == at@),
        !r ==> *final(role) == *old(role),
{
    if role.hosting() || role.listening() {
        return false;
    }
    *role = JamRole::Joining { at: at.clone() };
    true
}

/// Stops following a host: answers whether the player followed one, in which case it is idle
/// now and the views are told it left.
pub fn leave(role: &mut JamRole) -> (r: bool)
    ensures
        r == (*old(role) is Listening || *old(role) is Joining || *old(role) is Lost),
        r ==> *final(role) is Idle,
        !r ==> *final(role) == *old(role),
{
    if !role.listening() {
        return false;
    }
    *role = JamRole::Idle;
    true
}

/// Changes the role of a listener of the host at `at` as it hears from the host: a welcome
/// makes it a listener of the room named, a refusal or the end of the jam makes it idle, a
/// lost connection leaves it waiting to reach the host again. Answers with what to tell the
/// views, and with what the host plays when that is what it heard, the role then unchanged.
pub fn heard(role: &mut JamRole, event: ReceiverEvent, at: &String) -> (r: (
    Option<JamEvent>,
    Option<Playing>,
))
    ensures
        match event {
            ReceiverEvent::Welcomed(room) => {
                &&& r == (Some(JamEvent::Joined), None::<Playing>)
                &&& *final(role) matches JamRole::Listening { room: named, host, at: following }
                &&& named == room && host@ == at@ && following@ == at@
            },
            ReceiverEvent::Now(playing) => r == (None::<JamEvent>, Some(playing)) && *final(role)
                == *old(role),
            ReceiverEvent::Refused(reason) => r == (Some(JamEvent::Refused(reason)), None::<
                Playing,
            >) && *final(role) is Idle,
            ReceiverEvent::Ended(_) => r == (None::<JamEvent>, None::<Playing>) && *final(role) is Idle,
            ReceiverEvent::Lost => {
                &&& r == (None::<JamEvent>, None::<Playing>)
                &&& *final(role) matches JamRole::Lost { at: lost }
                &&& lost@ == at@
            },
        },
{
    match event {
        ReceiverEvent::Welcomed(room) => {
            *role = JamRole::Listening { room, host: at.clone(), at: at.clone() };
            (Some(JamEvent::Joined), None)
        },
        ReceiverEvent::Now(playing) => (None, Some(playing)),
        ReceiverEvent::Refused(reason) => {
            *role = JamRole::Idle;
            (Some(JamEvent::Refused(reason)), None)
        },
        ReceiverEvent::Ended(_) => {
            *role = JamRole::Idle;
            (None, None)
        },
        ReceiverEvent::Lost => {
            *role = JamRole::Lost { at: at.clone() };
            (None, None)
        },
    }
}

/// How long a listener waits before its next try to reach the host, in milliseconds, after
/// this many tries in a row that ended without it getting in: a second, then five, then
/// fifteen, and then no more tries.
pub open spec fn backoff_spec(failures: int) -> Option<u64> {
    if failures == 0 {
        Some(1000)
    } else if failures == 1 {
        Some(5000)
    } else if failures == 2 {
        Some(15000)
    } else {
        None
    }
}

/// How long a listener waits before its next try, after `failures` tries in a row that ended
/// without it getting in.
pub fn backoff(failures: usize) -> (r: Option<u64>)
    ensures
        r == backoff_spec(failures as int),
{
    if failures == 0 {
        Some(1000)
    } else if failures == 1 {
        Some(5000)
    } else if failures == 2 {
        Some(15000)
    } else {
        None
    }
}

/// The tries a listener makes to reach a host: how many in a row ended without a welcome,
/// and whether the connection now open was welcomed or told to stop for good.
pub struct Rejoin {
    pub failures: usize,
    pub welcomed: bool,
    pub give_up: bool,
}

/// What one connection's end decides: how long to wait before the next try, if there is one,
/// and how many tries in a row have then ended without a welcome.
pub open spec fn rejoin_spec(failures: int, welcomed: bool, give_up: bool) -> (Option<u64>, int) {
    if give_up {
        (None, failures)
    } else {
        let counted = if welcomed {
            0
        } else {
            failures
        };
        match backoff_spec(counted) {
            Some(wait) => (Some(wait), counted + 1),
            None => (None, counted),
        }
    }
}

impl Rejoin {
    /// The first try.
    pub fn new() -> (r: Rejoin)
        ensures
            r.failures == 0 && !r.welcomed && !r.give_up,
    {
        Rejoin { failures: 0, welcomed: false, give_up: false }
    }

    /// Notes what the listener heard on the connection now open: a welcome, or a refusal or
    /// the end of the jam, after which no try follows.
    pub fn hear(&mut self, event: &ReceiverEvent)
        ensures
            final(self).failures == old(self).failures,
            final(self).welcomed == (old(self).welcomed || *event is Welcomed),
            final(self).give_up == (old(self).give_up || *event is Refused || *event is Ended),
    {
        match event {
            ReceiverEvent::Welcomed(_) => self.welcomed = true,
            ReceiverEvent::Refused(_) | ReceiverEvent::Ended(_) => self.give_up = true,
            _ => {},
        }
    }

    /// The connection ended: answers how long to wait before the next try, or nothing when the
    /// listener stops trying. A welcome on it starts the count of failed tries over.
    pub fn ended(&mut self) -> (wait: Option<u64>)
        ensures
            (wait, final(self).failures as int) == rejoin_spec(
                old(self).failures as int,
                old(self).welcomed,
                old(self).give_up,
            ),
            !final(self).welcomed,
            final(self).give_up == old(self).give_up,
    {
        if self.give_up {
            self.welcomed = false;
            return None;
        }
        if self.welcomed {
            self.failures = 0;
        }
        self.welcomed = false;
        let wait = backoff(self.failures);
        if wait.is_some() {
            self.failures = self.failures + 1;
        }
        wait
    }
}

/// A listener that never gets in tries at most three more times: from any count of failed
/// tries, the fourth end in a row without a welcome stops the tries.
pub proof fn lemma_gives_up_without_a_welcome(failures: int)
    requires
        failures >= 0,
    ensures
        ({
            let first = rejoin_spec(failures, false, false);
            let second = rejoin_spec(first.1, false, false);
            let third = rejoin_spec(second.1, false, false);
            let fourth = rejoin_spec(third.1, false, false);
            fourth.0 is None
        }),
{
}

/// A welcome starts the tries over: the next try comes after the shortest wait.
pub proof fn lemma_welcome_starts_over(failures: int)
    ensures
        rejoin_spec(failures, true, false) == (Some(1000u64), 1int),
{
}

/// A refusal or the end of the jam stops the tries, whatever came before.
pub proof fn lemma_refusal_stops(failures: int, welcomed: bool)
    ensures
        rejoin_spec(failures, welcomed, true).0 is None,
{
}

/// The name a room goes by: the one the player set, or "Sonora" when none is set.
pub fn room_name(name: &str) -> (r: String)
    ensures
        name@.len() == 0 ==> r@ == "Sonora"@,
        name@.len() > 0 ==> r@ == name@,
{
    if name.is_empty() {
        String::from_str("Sonora")
    } else {
        String::from_str(name)
    }
}

/// The digit `d` as a character.
pub open spec fn digit_char(d: int) -> char {
    seq!['0', '1', '2', '3', '4', '5', '6', '7', '8', '9'][d]
}

/// What place `i` of six stands for: a hundred thousand first, a unit last.
pub open spec fn place_value(i: int) -> int
    decreases 6 - i,
{
    if i >= 5 {
        1
    } else {
        10 * place_value(i + 1)
    }
}

/// The code a room is joined with: `n` in six decimal digits, zeros first.
pub open spec fn code_spec(n: int) -> Seq<char> {
    Seq::new(6, |i: int| digit_char((n / place_value(i)) % 10))
}

/// The code a room is joined with, for `n` below a million: six decimal digits, zeros first.
pub fn join_code(n: u32) -> (r: String)
    requires
        n < 1_000_000,
    ensures
        r@ == code_spec(n as int),
{
    let digits: [char; 10] = ['0', '1', '2', '3', '4', '5', '6', '7', '8', '9'];
    let mut chars: Vec<char> = Vec::new();
    let mut place: u32 = 100_000;
    let mut i: usize = 0;
    assert(place_value(0) == 100_000) by {
        reveal_with_fuel(place_value, 7);
    }
    while i < 6
        invariant
            i <= 6,
            chars@.len() == i,
            n < 1_000_000,
            digits@ == seq!['0', '1', '2', '3', '4', '5', '6', '7', '8', '9'],
            i < 6 ==> place as int == place_value(i as int),
            i < 6 ==> place >= 1,
            forall|j: int| 0 <= j < i ==> chars@[j] == #[trigger] code_spec(n as int)[j],
        decreases 6 - i,
    {
        let d = (n / place) % 10;
        chars.push(digits[d as usize]);
        proof {
            assert(place_value(i as int) == 10 * place_value(i + 1) || i == 5);
        }
        if i < 5 {
            place = place / 10;
        }
        i = i + 1;
    }
    proof {
        assert(chars@ =~= code_spec(n as int));
    }
    string_of(&chars)
}

/// A number below `bound`, picked at random by fastrand's thread-local generator; `bound` is
/// above zero, as fastrand panics on an empty range.
#[verifier::external_body]
fn random_below(bound: u32) -> (r: u32)
    requires
        bound > 0,
    ensures
        r < bound,
{
    fastrand::u32(0..bound)
}

/// A fresh code for a room: six decimal digits picked at random.
pub fn fresh_code() -> (r: String)
    ensures
        exists|n: int| 0 <= n < 1_000_000 && r@ == code_spec(n),
{
    let n = random_below(1_000_000);
    join_code(n)
}


/// What the join form asks to follow: the host's address and the room's code, each without
/// white space at either end; nothing when either is left empty.
pub fn join_form(address: &str, code: &str) -> (r: Option<(String, String)>)
    ensures
        match r {
            Some((at, code_given)) => at@ == crate::text::trimmed(address@) && code_given@
                == crate::text::trimmed(code@) && at@.len() > 0 && code_given@.len() > 0,
            None => crate::text::trimmed(address@).len() == 0 || crate::text::trimmed(code@).len()
                == 0,
        },
{
    let at = crate::text::trim(address);
    let given = crate::text::trim(code);
    if at.as_str().is_empty() || given.as_str().is_empty() {
        None
    } else {
        Some((at, given))
    }
}

} // verus!
