//! What the host shows its listeners, taken whole after every change, and the messages that
//! bring one listener from the snapshot it last saw to the current one.

use vstd::prelude::*;

use crate::alike::{all_alike, copy_all, views_of, Alike};
use crate::track::same_text;
use crate::wire::{Caps, FromHost, Hit, HitView, Line, LineView, Pack, PackView, Repeat, Who, WhoView};

verus! {

/// The player's buttons as a listener sees them.
#[derive(Clone, Copy, Debug, PartialEq, Eq, Structural)]
pub struct Controls {
    pub volume: u8,
    pub shuffle: bool,
    pub repeat: Repeat,
    pub can_next: bool,
    pub can_previous: bool,
    pub favorite: bool,
}

impl Default for Controls {
    fn default() -> (r: Self)
        ensures
            r == (Controls {
                volume: 0,
                shuffle: false,
                repeat: Repeat::Off,
                can_next: false,
                can_previous: false,
                favorite: false,
            }),
    {
        Controls {
            volume: 0,
            shuffle: false,
            repeat: Repeat::Off,
            can_next: false,
            can_previous: false,
            favorite: false,
        }
    }
}

/// One listener in the room: the name they gave, whether they listen in the app, and the
/// device they joined from.
#[derive(Clone, Debug, PartialEq, Eq)]
pub struct Seat {
    pub name: String,
    pub native: bool,
    pub device: String,
}

/// A seat as a plain value.
pub struct SeatView {
    pub name: Seq<char>,
    pub native: bool,
    pub device: Seq<char>,
}

impl View for Seat {
    type V = SeatView;

    open spec fn view(&self) -> SeatView {
        SeatView { name: self.name@, native: self.native, device: self.device@ }
    }
}

impl Alike for Seat {
    fn alike(&self, other: &Self) -> (r: bool) {
        same_text(&self.name, &other.name) && self.native == other.native && same_text(
            &self.device,
            &other.device,
        )
    }

    fn duplicate(&self) -> (r: Self) {
        Seat { name: self.name.clone(), native: self.native, device: self.device.clone() }
    }
}

/// The queue as listeners see it: a revision that changes with it, how long it is, where the
/// playing track is in it, and the rows around that.
#[derive(Clone, Debug, PartialEq, Eq)]
pub struct Lineup {
    pub revision: u64,
    pub total: u32,
    pub at: i32,
    pub rows: Vec<Hit>,
}

/// A lineup as a plain value.
pub struct LineupView {
    pub revision: u64,
    pub total: u32,
    pub at: i32,
    pub rows: Seq<HitView>,
}

impl View for Lineup {
    type V = LineupView;

    open spec fn view(&self) -> LineupView {
        LineupView {
            revision: self.revision,
            total: self.total,
            at: self.at,
            rows: views_of(self.rows@),
        }
    }
}

impl Default for Lineup {
    fn default() -> (r: Self)
        ensures
            r@ == (LineupView { revision: 0, total: 0, at: 0, rows: Seq::empty() }),
    {
        let r = Lineup { revision: 0, total: 0, at: 0, rows: Vec::new() };
        assert(r@.rows =~= Seq::<HitView>::empty());
        r
    }
}

impl Alike for Lineup {
    fn alike(&self, other: &Self) -> (r: bool) {
        self.revision == other.revision && self.total == other.total && self.at == other.at
            && all_alike(&self.rows, &other.rows)
    }

    fn duplicate(&self) -> (r: Self) {
        Lineup {
            revision: self.revision,
            total: self.total,
            at: self.at,
            rows: copy_all(&self.rows),
        }
    }
}

/// The lyrics of the playing track, and whether they are timed.
#[derive(Clone, Debug, PartialEq, Eq)]
pub struct Words {
    pub synced: bool,
    pub lines: Vec<Line>,
}

/// Lyrics as a plain value.
pub struct WordsView {
    pub synced: bool,
    pub lines: Seq<LineView>,
}

impl View for Words {
    type V = WordsView;

    open spec fn view(&self) -> WordsView {
        WordsView { synced: self.synced, lines: views_of(self.lines@) }
    }
}

impl Default for Words {
    fn default() -> (r: Self)
        ensures
            r@ == (WordsView { synced: false, lines: Seq::empty() }),
    {
        let r = Words { synced: false, lines: Vec::new() };
        assert(r@.lines =~= Seq::<LineView>::empty());
        r
    }
}

impl Alike for Words {
    fn alike(&self, other: &Self) -> (r: bool) {
        self.synced == other.synced && all_alike(&self.lines, &other.lines)
    }

    fn duplicate(&self) -> (r: Self) {
        Words { synced: self.synced, lines: copy_all(&self.lines) }
    }
}

/// Everything listeners are shown, at one moment. `grants` says what each device may do; a
/// later grant to a device stands over an earlier one, and a device without one may do nothing.
#[derive(Clone, Debug)]
pub struct Snapshot {
    pub controls: Controls,
    pub lineup: Lineup,
    pub packs: Vec<Pack>,
    pub words: Words,
    pub room: Vec<Seat>,
    pub grants: Vec<(String, Caps)>,
}

/// A snapshot as a plain value.
pub struct SnapshotView {
    pub controls: Controls,
    pub lineup: LineupView,
    pub packs: Seq<PackView>,
    pub words: WordsView,
    pub room: Seq<SeatView>,
    pub grants: Seq<(Seq<char>, Caps)>,
}

/// Grants as plain values.
pub open spec fn grants_of(grants: Seq<(String, Caps)>) -> Seq<(Seq<char>, Caps)> {
    grants.map_values(|grant: (String, Caps)| (grant.0@, grant.1))
}

impl View for Snapshot {
    type V = SnapshotView;

    open spec fn view(&self) -> SnapshotView {
        SnapshotView {
            controls: self.controls,
            lineup: self.lineup@,
            packs: views_of(self.packs@),
            words: self.words@,
            room: views_of(self.room@),
            grants: grants_of(self.grants@),
        }
    }
}

/// Nothing allowed.
pub open spec fn no_caps() -> Caps {
    Caps { add: false, control: false, browse: false, favorite: false }
}

/// What `device` may do: its latest grant, or nothing.
pub open spec fn granted(grants: Seq<(Seq<char>, Caps)>, device: Seq<char>) -> Caps
    decreases grants.len(),
{
    if grants.len() == 0 {
        no_caps()
    } else if grants.last().0 == device {
        grants.last().1
    } else {
        granted(grants.drop_last(), device)
    }
}

/// The packs a listener with `can` is shown: all of them with browsing, none without.
pub open spec fn shown(snapshot: SnapshotView, can: Caps) -> Seq<PackView> {
    if can.browse {
        snapshot.packs
    } else {
        Seq::empty()
    }
}

/// A seat as the others see it.
pub open spec fn seen_as(seat: SeatView) -> WhoView {
    WhoView { name: seat.name, native: seat.native }
}

/// Where the first seat of `device` is in the room, from `from` on; -1 when it has none.
pub open spec fn seat_of(room: Seq<SeatView>, device: Seq<char>, from: int) -> int
    decreases room.len() - from,
{
    if from >= room.len() || from < 0 {
        -1
    } else if room[from].device == device {
        from
    } else {
        seat_of(room, device, from + 1)
    }
}

/// What one message tells, as a plain value; `Other` for the kinds a snapshot never sends.
pub enum Told {
    Grant(Caps),
    Controls(Controls),
    Lineup(LineupView),
    Packs(Seq<PackView>),
    Words(WordsView),
    Room(Seq<WhoView>, int),
    Other,
}

/// What a message tells.
pub open spec fn told_of(message: FromHost) -> Told {
    match message {
        FromHost::Grant { can } => Told::Grant(can),
        FromHost::Controls { volume, shuffle, repeat, can_next, can_previous, favorite } => {
            Told::Controls(Controls { volume, shuffle, repeat, can_next, can_previous, favorite })
        },
        FromHost::Lineup { revision, total, at, rows } => Told::Lineup(
            LineupView { revision, total, at, rows: views_of(rows@) },
        ),
        FromHost::Packs { packs } => Told::Packs(views_of(packs@)),
        FromHost::Words { synced, lines } => Told::Words(
            WordsView { synced, lines: views_of(lines@) },
        ),
        FromHost::Room { listeners, you } => Told::Room(views_of(listeners@), you as int),
        _ => Told::Other,
    }
}

/// One message when `changed`, none otherwise.
pub open spec fn news(changed: bool, told: Told) -> Seq<Told> {
    if changed {
        seq![told]
    } else {
        Seq::empty()
    }
}

/// The packs `device` was shown in the snapshot before; none when there was none.
pub open spec fn shown_before(was: Option<SnapshotView>, device: Seq<char>) -> Seq<PackView> {
    match was {
        Some(was) => shown(was, granted(was.grants, device)),
        None => Seq::empty(),
    }
}

/// What a list of messages tells, message by message.
pub open spec fn told_all(messages: Seq<FromHost>) -> Seq<Told> {
    messages.map_values(|message: FromHost| told_of(message))
}

/// The grant, unless `device` had the same one before.
pub open spec fn grant_news(was: Option<SnapshotView>, now: SnapshotView, device: Seq<char>) -> Seq<Told> {
    let can = granted(now.grants, device);
    news(!(was matches Some(was) && granted(was.grants, device) == can), Told::Grant(can))
}

/// The controls, unless they are as they were.
pub open spec fn controls_news(was: Option<SnapshotView>, now: SnapshotView) -> Seq<Told> {
    news(!(was matches Some(was) && was.controls == now.controls), Told::Controls(now.controls))
}

/// The lineup, unless it is as it was.
pub open spec fn lineup_news(was: Option<SnapshotView>, now: SnapshotView) -> Seq<Told> {
    news(!(was matches Some(was) && was.lineup == now.lineup), Told::Lineup(now.lineup))
}

/// The packs `device` may see, unless it saw the same before.
pub open spec fn packs_news(was: Option<SnapshotView>, now: SnapshotView, device: Seq<char>) -> Seq<Told> {
    let packs = shown(now, granted(now.grants, device));
    news(shown_before(was, device) != packs, Told::Packs(packs))
}

/// The lyrics, unless they are as they were.
pub open spec fn words_news(was: Option<SnapshotView>, now: SnapshotView) -> Seq<Told> {
    news(!(was matches Some(was) && was.words == now.words), Told::Words(now.words))
}

/// The room and `device`'s seat in it, unless the room is as it was.
pub open spec fn room_news(was: Option<SnapshotView>, now: SnapshotView, device: Seq<char>) -> Seq<Told> {
    news(
        !(was matches Some(was) && was.room == now.room),
        Told::Room(now.room.map_values(|seat: SeatView| seen_as(seat)), seat_of(now.room, device, 0)),
    )
}

/// What `device` is told on the way from `was` to `now`, in order: its grant, the controls,
/// the lineup, the packs it may see, the lyrics and the room, each only where it changed, and
/// everything when there was nothing before.
pub open spec fn told_between(was: Option<SnapshotView>, now: SnapshotView, device: Seq<char>) -> Seq<
    Told,
> {
    grant_news(was, now, device) + controls_news(was, now) + lineup_news(was, now) + packs_news(
        was,
        now,
        device,
    ) + words_news(was, now) + room_news(was, now, device)
}

/// The plain view of an optional snapshot.
pub open spec fn was_of(was: Option<&Snapshot>) -> Option<SnapshotView> {
    match was {
        Some(was) => Some(was@),
        None => None,
    }
}

impl Snapshot {
    /// An empty room showing nothing.
    pub fn new() -> (r: Snapshot)
        ensures
            r@.controls == (Controls {
                volume: 0,
                shuffle: false,
                repeat: Repeat::Off,
                can_next: false,
                can_previous: false,
                favorite: false,
            }),
            r@.lineup == (LineupView { revision: 0, total: 0, at: 0, rows: Seq::empty() }),
            r@.packs == Seq::<PackView>::empty(),
            r@.words == (WordsView { synced: false, lines: Seq::empty() }),
            r@.room == Seq::<SeatView>::empty(),
            r@.grants == Seq::<(Seq<char>, Caps)>::empty(),
    {
        let r = Snapshot {
            controls: Controls::default(),
            lineup: Lineup::default(),
            packs: Vec::new(),
            words: Words::default(),
            room: Vec::new(),
            grants: Vec::new(),
        };
        assert(r@.packs =~= Seq::<PackView>::empty());
        assert(r@.room =~= Seq::<SeatView>::empty());
        assert(r@.grants =~= Seq::<(Seq<char>, Caps)>::empty());
        r
    }

    /// What `device` may do here.
    pub fn can(&self, device: &str) -> (r: Caps)
        ensures
            r == granted(self@.grants, device@),
    {
        let ghost all = self@.grants;
        let wanted = device.to_owned();
        let mut i: usize = self.grants.len();
        assert(all.subrange(0, i as int) =~= all);
        while i > 0
            invariant
                i <= self.grants@.len(),
                all == grants_of(self.grants@),
                wanted@ == device@,
                granted(all, device@) == granted(all.subrange(0, i as int), device@),
            decreases i,
        {
            let ghost upto = all.subrange(0, i as int);
            assert(upto.last() == all[i - 1]);
            assert(upto.drop_last() =~= all.subrange(0, i - 1));
            if same_text(&self.grants[i - 1].0, &wanted) {
                return self.grants[i - 1].1;
            }
            i = i - 1;
        }
        Caps::default()
    }

    /// Lets `device` do what `can` says, over whatever it was allowed before.
    pub fn grant(&mut self, device: &str, can: Caps)
        ensures
            final(self)@.grants == old(self)@.grants.push((device@, can)),
            final(self)@.controls == old(self)@.controls,
            final(self)@.lineup == old(self)@.lineup,
            final(self)@.packs == old(self)@.packs,
            final(self)@.words == old(self)@.words,
            final(self)@.room == old(self)@.room,
    {
        let ghost before = self.grants@;
        self.grants.push((device.to_owned(), can));
        assert(grants_of(self.grants@) =~= grants_of(before).push((device@, can)));
    }
}

impl Default for Snapshot {
    fn default() -> (r: Snapshot)
        ensures
            r@.controls == (Controls {
                volume: 0,
                shuffle: false,
                repeat: Repeat::Off,
                can_next: false,
                can_previous: false,
                favorite: false,
            }),
            r@.lineup == (LineupView { revision: 0, total: 0, at: 0, rows: Seq::empty() }),
            r@.packs == Seq::<PackView>::empty(),
            r@.words == (WordsView { synced: false, lines: Seq::empty() }),
            r@.room == Seq::<SeatView>::empty(),
            r@.grants == Seq::<(Seq<char>, Caps)>::empty(),
    {
        Snapshot::new()
    }
}

/// A later grant to a device is what it may do; grants to other devices are untouched.
pub proof fn lemma_grant_stands(grants: Seq<(Seq<char>, Caps)>, device: Seq<char>, can: Caps, other: Seq<char>)
    ensures
        granted(grants.push((device, can)), device) == can,
        other != device ==> granted(grants.push((device, can)), other) == granted(grants, other),
{
    assert(grants.push((device, can)).drop_last() =~= grants);
}

/// The packs a listener with `can` is shown.
fn shown_packs(snapshot: &Snapshot, can: Caps) -> (r: Vec<Pack>)
    ensures
        views_of(r@) == shown(snapshot@, can),
{
    if can.browse {
        copy_all(&snapshot.packs)
    } else {
        let r: Vec<Pack> = Vec::new();
        assert(views_of(r@) =~= Seq::<PackView>::empty());
        r
    }
}

/// A seat as the others see it.
fn seen(seat: &Seat) -> (r: Who)
    ensures
        r@ == seen_as(seat@),
{
    Who { name: seat.name.clone(), native: seat.native }
}

/// Where `device` sits in the room, -1 when it has no seat there.
fn seated(now: &Snapshot, device: &str) -> (r: i32)
    requires
        now.room@.len() <= i32::MAX,
    ensures
        r as int == seat_of(now@.room, device@, 0),
{
    let ghost room = now@.room;
    let wanted = device.to_owned();
    let mut i: usize = 0;
    while i < now.room.len()
        invariant
            i <= now.room@.len(),
            now.room@.len() <= i32::MAX,
            room == views_of(now.room@),
            wanted@ == device@,
            seat_of(room, device@, 0) == seat_of(room, device@, i as int),
        decreases now.room@.len() - i,
    {
        assert(room[i as int] == now.room@[i as int]@);
        if same_text(&now.room[i].device, &wanted) {
            return i as i32;
        }
        i = i + 1;
    }
    -1
}

/// The room as the others see it.
fn listeners_of(room: &Vec<Seat>) -> (r: Vec<Who>)
    ensures
        views_of(r@) == views_of(room@).map_values(|seat: SeatView| seen_as(seat)),
{
    let mut out: Vec<Who> = Vec::new();
    let mut i: usize = 0;
    while i < room.len()
        invariant
            i <= room@.len(),
            out@.len() == i,
            forall|j: int| 0 <= j < i ==> #[trigger] out@[j]@ == seen_as(room@[j]@),
        decreases room@.len() - i,
    {
        out.push(seen(&room[i]));
        i = i + 1;
    }
    assert(views_of(out@) =~= views_of(room@).map_values(|seat: SeatView| seen_as(seat)));
    out
}

/// Adds `message` to what is told.
fn tell(told: &mut Vec<FromHost>, message: FromHost)
    ensures
        told_all(final(told)@) == told_all(old(told)@).push(told_of(message)),
{
    let ghost before = told@;
    told.push(message);
    assert(told_all(told@) =~= told_all(before).push(told_of(message)));
}

/// Tells the grant where it changed.
fn tell_grant(told: &mut Vec<FromHost>, was: Option<&Snapshot>, now: &Snapshot, device: &str)
    ensures
        told_all(final(told)@) == told_all(old(told)@) + grant_news(was_of(was), now@, device@),
{
    let ghost before = told_all(told@);
    let can = now.can(device);
    let same = match was {
        Some(was) => was.can(device) == can,
        None => false,
    };
    if !same {
        tell(told, FromHost::Grant { can });
        assert(told_all(told@) =~= before + grant_news(was_of(was), now@, device@));
    } else {
        assert(before =~= before + grant_news(was_of(was), now@, device@));
    }
}

/// Tells the controls where they changed.
fn tell_controls(told: &mut Vec<FromHost>, was: Option<&Snapshot>, now: &Snapshot)
    ensures
        told_all(final(told)@) == told_all(old(told)@) + controls_news(was_of(was), now@),
{
    let ghost before = told_all(told@);
    let same = match was {
        Some(was) => was.controls == now.controls,
        None => false,
    };
    if !same {
        let c = now.controls;
        tell(
            told,
            FromHost::Controls {
                volume: c.volume,
                shuffle: c.shuffle,
                repeat: c.repeat,
                can_next: c.can_next,
                can_previous: c.can_previous,
                favorite: c.favorite,
            },
        );
        assert(told_all(told@) =~= before + controls_news(was_of(was), now@));
    } else {
        assert(before =~= before + controls_news(was_of(was), now@));
    }
}

/// Tells the lineup where it changed.
fn tell_lineup(told: &mut Vec<FromHost>, was: Option<&Snapshot>, now: &Snapshot)
    ensures
        told_all(final(told)@) == told_all(old(told)@) + lineup_news(was_of(was), now@),
{
    let ghost before = told_all(told@);
    let same = match was {
        Some(was) => was.lineup.alike(&now.lineup),
        None => false,
    };
    if !same {
        let rows = copy_all(&now.lineup.rows);
        tell(
            told,
            FromHost::Lineup {
                revision: now.lineup.revision,
                total: now.lineup.total,
                at: now.lineup.at,
                rows,
            },
        );
        assert(told_all(told@) =~= before + lineup_news(was_of(was), now@));
    } else {
        assert(before =~= before + lineup_news(was_of(was), now@));
    }
}

/// Tells the packs `device` may see where they changed.
fn tell_packs(told: &mut Vec<FromHost>, was: Option<&Snapshot>, now: &Snapshot, device: &str)
    ensures
        told_all(final(told)@) == told_all(old(told)@) + packs_news(was_of(was), now@, device@),
{
    let ghost start = told_all(told@);
    let packs = shown_packs(now, now.can(device));
    let before: Vec<Pack> = match was {
        Some(was) => shown_packs(was, was.can(device)),
        None => Vec::new(),
    };
    assert(views_of(before@) == shown_before(was_of(was), device@)) by {
        if was is None {
            assert(views_of(before@) =~= Seq::<PackView>::empty());
        }
    }
    if !all_alike(&before, &packs) {
        tell(told, FromHost::Packs { packs });
        assert(told_all(told@) =~= start + packs_news(was_of(was), now@, device@));
    } else {
        assert(start =~= start + packs_news(was_of(was), now@, device@));
    }
}

/// Tells the lyrics where they changed.
fn tell_words(told: &mut Vec<FromHost>, was: Option<&Snapshot>, now: &Snapshot)
    ensures
        told_all(final(told)@) == told_all(old(told)@) + words_news(was_of(was), now@),
{
    let ghost before = told_all(told@);
    let same = match was {
        Some(was) => was.words.alike(&now.words),
        None => false,
    };
    if !same {
        let lines = copy_all(&now.words.lines);
        tell(told, FromHost::Words { synced: now.words.synced, lines });
        assert(told_all(told@) =~= before + words_news(was_of(was), now@));
    } else {
        assert(before =~= before + words_news(was_of(was), now@));
    }
}

/// Tells the room where it changed.
fn tell_room(told: &mut Vec<FromHost>, was: Option<&Snapshot>, now: &Snapshot, device: &str)
    requires
        now.room@.len() <= i32::MAX,
    ensures
        told_all(final(told)@) == told_all(old(told)@) + room_news(was_of(was), now@, device@),
{
    let ghost before = told_all(told@);
    let same = match was {
        Some(was) => all_alike(&was.room, &now.room),
        None => false,
    };
    if !same {
        let listeners = listeners_of(&now.room);
        let you = seated(now, device);
        tell(told, FromHost::Room { listeners, you });
        assert(told_all(told@) =~= before + room_news(was_of(was), now@, device@));
    } else {
        assert(before =~= before + room_news(was_of(was), now@, device@));
    }
}

/// What `device` has to be told to go from the snapshot it last saw, `was`, to `now`: a first
/// snapshot tells everything, an unchanged one tells nothing.
pub fn between(was: Option<&Snapshot>, now: &Snapshot, device: &str) -> (told: Vec<FromHost>)
    requires
        now.room@.len() <= i32::MAX,
    ensures
        told_all(told@) == told_between(was_of(was), now@, device@),
{
    let mut told: Vec<FromHost> = Vec::new();
    assert(told_all(told@) =~= Seq::<Told>::empty());
    tell_grant(&mut told, was, now, device);
    tell_controls(&mut told, was, now);
    tell_lineup(&mut told, was, now);
    tell_packs(&mut told, was, now, device);
    tell_words(&mut told, was, now);
    tell_room(&mut told, was, now, device);
    assert(told_all(told@) =~= told_between(was_of(was), now@, device@));
    told
}

/// Nothing changed says nothing: a listener that saw `now` is told nothing more about it.
pub proof fn lemma_nothing_changed_says_nothing(now: SnapshotView, device: Seq<char>)
    ensures
        told_between(Some(now), now, device) == Seq::<Told>::empty(),
{
    assert(told_between(Some(now), now, device) =~= Seq::<Told>::empty());
}

/// A first snapshot tells everything: the grant first, then the controls, the lineup, the
/// packs where there are any to see, the lyrics and the room.
pub proof fn lemma_first_snapshot_tells_everything(now: SnapshotView, device: Seq<char>)
    ensures
        ({
            let packs = shown(now, granted(now.grants, device));
            told_between(None, now, device) == seq![
                Told::Grant(granted(now.grants, device)),
                Told::Controls(now.controls),
                Told::Lineup(now.lineup),
            ] + news(packs.len() > 0, Told::Packs(packs)) + seq![
                Told::Words(now.words),
                Told::Room(
                    now.room.map_values(|seat: SeatView| seen_as(seat)),
                    seat_of(now.room, device, 0),
                ),
            ]
        }),
{
    let packs = shown(now, granted(now.grants, device));
    if packs.len() == 0 {
        assert(shown_before(None, device) =~= packs);
    }
    assert(told_between(None, now, device) =~= seq![
                Told::Grant(granted(now.grants, device)),
                Told::Controls(now.controls),
                Told::Lineup(now.lineup),
            ] + news(packs.len() > 0, Told::Packs(packs)) + seq![
                Told::Words(now.words),
                Told::Room(
                    now.room.map_values(|seat: SeatView| seen_as(seat)),
                    seat_of(now.room, device, 0),
                ),
            ]);
}

/// A grant that changes for one device reaches that device alone: every other device, which
/// saw `was`, is told nothing.
pub proof fn lemma_a_grant_reaches_its_own_device(
    was: SnapshotView,
    other: Seq<char>,
    can: Caps,
    device: Seq<char>,
)
    requires
        device != other,
    ensures
        told_between(
            Some(was),
            SnapshotView { grants: was.grants.push((other, can)), ..was },
            device,
        ) == Seq::<Told>::empty(),
        told_between(
            Some(was),
            SnapshotView { grants: was.grants.push((other, can)), ..was },
            other,
        ) == (if granted(was.grants, other) == can {
            Seq::<Told>::empty()
        } else if shown(was, granted(was.grants, other)) == shown(was, can) {
            seq![Told::Grant(can)]
        } else {
            seq![Told::Grant(can), Told::Packs(shown(was, can))]
        }),
{
    let now = SnapshotView { grants: was.grants.push((other, can)), ..was };
    lemma_grant_stands(was.grants, other, can, device);
    assert(told_between(Some(was), now, device) =~= Seq::<Told>::empty());
    lemma_grant_stands(was.grants, other, can, other);
    assert(shown(now, can) == shown(was, can));
    if granted(was.grants, other) == can {
        assert(told_between(Some(was), now, other) =~= Seq::<Told>::empty());
    } else if shown(was, granted(was.grants, other)) == shown(was, can) {
        assert(told_between(Some(was), now, other) =~= seq![Told::Grant(can)]);
    } else {
        assert(told_between(Some(was), now, other) =~= seq![Told::Grant(can), Told::Packs(shown(was, can))]);
    }
}

} // verus!
