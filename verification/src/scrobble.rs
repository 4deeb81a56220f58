//! Scrobbling as decisions: one row per service with its stored account and link state, the
//! listen a track makes, which services hear that it started, and which get it once it has
//! played long enough, each at most once per play. The services themselves, the clock and the
//! rule for how long is long enough stay with the caller.

use vstd::prelude::*;

use crate::home::Credited;
use crate::track::{same_text, text_of, TrackView};

verus! {

/// One service's link as the settings screen sees it.
#[derive(Clone, Debug, PartialEq, Eq)]
pub enum ScrobbleState {
    Off,
    Linking,
    On(String),
    Failed(String),
}

/// A link state as a plain value.
pub enum StateView {
    Off,
    Linking,
    On(Seq<char>),
    Failed(Seq<char>),
}

impl View for ScrobbleState {
    type V = StateView;

    open spec fn view(&self) -> StateView {
        match self {
            ScrobbleState::Off => StateView::Off,
            ScrobbleState::Linking => StateView::Linking,
            ScrobbleState::On(name) => StateView::On(name@),
            ScrobbleState::Failed(why) => StateView::Failed(why@),
        }
    }
}

/// A service's stored account: the name it goes by, whether it is linked, and whether listens
/// go to it. A linked service the user switched off stays linked.
#[derive(Clone, Debug, PartialEq, Eq)]
pub struct Account {
    pub name: String,
    pub linked: bool,
    pub enabled: bool,
}

/// One service: its id, its stored account, its link state, and whether the current play has
/// already gone to it. Per row, so one service being down never costs another its listen.
pub struct ScrobbleRow {
    pub id: String,
    pub account: Account,
    pub state: ScrobbleState,
    pub sent: bool,
}

/// A row as a plain value.
pub struct RowView {
    pub id: Seq<char>,
    pub name: Seq<char>,
    pub linked: bool,
    pub enabled: bool,
    pub state: StateView,
    pub sent: bool,
}

impl View for ScrobbleRow {
    type V = RowView;

    open spec fn view(&self) -> RowView {
        RowView {
            id: self.id@,
            name: self.account.name@,
            linked: self.account.linked,
            enabled: self.account.enabled,
            state: self.state@,
            sent: self.sent,
        }
    }
}

/// Whether listens go to a service right now: it is linked and turned on.
pub open spec fn live(row: RowView) -> bool {
    row.linked && row.enabled
}

impl ScrobbleRow {
    /// Whether the service is linked, as its row shows.
    pub fn linked(&self) -> (r: bool)
        ensures
            r == (self@.state is On),
    {
        match self.state {
            ScrobbleState::On(_) => true,
            _ => false,
        }
    }

    /// Whether a link of the service is running.
    pub fn linking(&self) -> (r: bool)
        ensures
            r == (self@.state is Linking),
    {
        match self.state {
            ScrobbleState::Linking => true,
            _ => false,
        }
    }

    /// Whether listens are submitted to the service when it is linked.
    pub fn enabled(&self) -> (r: bool)
        ensures
            r == self@.enabled,
    {
        self.account.enabled
    }

    /// Whether listens go to the service right now.
    pub fn live(&self) -> (r: bool)
        ensures
            r == live(self@),
    {
        self.account.linked && self.account.enabled
    }
}

/// What a service is told of a play: the artist, the title, the album when there is one, how
/// long the track is, and when the play began.
#[derive(Clone, Debug, PartialEq, Eq)]
pub struct Listen {
    pub artist: String,
    pub title: String,
    pub album: Option<String>,
    pub duration_ms: u64,
    pub at: u64,
}

/// A listen as a plain value.
pub struct ListenView {
    pub artist: Seq<char>,
    pub title: Seq<char>,
    pub album: Option<Seq<char>>,
    pub duration_ms: u64,
    pub at: u64,
}

impl View for Listen {
    type V = ListenView;

    open spec fn view(&self) -> ListenView {
        ListenView {
            artist: self.artist@,
            title: self.title@,
            album: text_of(self.album),
            duration_ms: self.duration_ms,
            at: self.at,
        }
    }
}

/// The artist a listen credits: the first artist the track credits, or its whole credit line
/// when it credits none.
pub open spec fn credited_artist(track: Credited) -> Seq<char> {
    if track.artist_refs@.len() > 0 {
        track.artist_refs@[0].name@
    } else {
        track.track.artists@
    }
}

/// The listen a track makes when its play began at `at`: none for a track without an artist or
/// a title, which no service takes.
pub open spec fn played_spec(track: Credited, at: u64) -> Option<ListenView> {
    let artist = credited_artist(track);
    let t: TrackView = track.track@;
    if artist.len() == 0 || t.name.len() == 0 {
        None
    } else {
        Some(
            ListenView {
                artist,
                title: t.name,
                album: if t.album.len() == 0 {
                    None
                } else {
                    Some(t.album)
                },
                duration_ms: t.duration_ms,
                at,
            },
        )
    }
}

/// An optional listen as a plain value.
pub open spec fn listen_view(listen: Option<Listen>) -> Option<ListenView> {
    match listen {
        Some(listen) => Some(listen@),
        None => None,
    }
}

/// The listen a track makes when its play began at `at`.
pub fn played(track: &Credited, at: u64) -> (r: Option<Listen>)
    ensures
        listen_view(r) == played_spec(*track, at),
{
    let artist = if track.artist_refs.len() > 0 {
        track.artist_refs[0].name.clone()
    } else {
        track.track.artists.clone()
    };
    if artist.as_str().is_empty() || track.track.name.as_str().is_empty() {
        return None;
    }
    let album = if track.track.album.as_str().is_empty() {
        None
    } else {
        Some(track.track.album.clone())
    };
    Some(
        Listen {
            artist,
            title: track.track.name.clone(),
            album,
            duration_ms: track.track.duration_ms,
            at,
        },
    )
}

/// Rows as plain values.
pub open spec fn rows_view(rows: Seq<ScrobbleRow>) -> Seq<RowView> {
    rows.map_values(|row: ScrobbleRow| row@)
}

/// A row after its stored account is read again: a row in the middle of a link keeps its
/// state; any other shows the account's name when it is linked, and is off otherwise.
pub open spec fn reread(row: RowView, account: Account) -> RowView {
    RowView {
        name: account.name@,
        linked: account.linked,
        enabled: account.enabled,
        state: if row.state is Linking {
            row.state
        } else if account.linked {
            StateView::On(account.name@)
        } else {
            StateView::Off
        },
        ..row
    }
}

/// The places of the rows that get a listen now: live ones, and, where `unsent` is asked,
/// only those that have not had the play yet.
pub open spec fn due(rows: Seq<RowView>, unsent: bool) -> Seq<usize>
    decreases rows.len(),
{
    if rows.len() == 0 {
        Seq::empty()
    } else {
        let before = due(rows.drop_last(), unsent);
        let last = rows.last();
        if live(last) && !(unsent && last.sent) {
            before.push((rows.len() - 1) as usize)
        } else {
            before
        }
    }
}

/// The message a row shows when a link did not go through.
pub open spec fn failed_key() -> Seq<char> {
    seq![
        's', 'e', 't', 't', 'i', 'n', 'g', 's', '-', 's', 'c', 'r', 'o', 'b', 'b', 'l', 'e', '-',
        'f', 'a', 'i', 'l', 'e', 'd',
    ]
}

/// Every service at once: a row per service, the listen of the current play, the id of the
/// track it is of, and when that play began.
pub struct Scrobbling {
    rows: Vec<ScrobbleRow>,
    play: Option<Listen>,
    current: Option<String>,
    started: u64,
}

/// Scrobbling as plain values.
pub struct ScrobblingView {
    pub rows: Seq<RowView>,
    pub play: Option<ListenView>,
    pub current: Option<Seq<char>>,
    pub started: u64,
}

impl View for Scrobbling {
    type V = ScrobblingView;

    closed spec fn view(&self) -> ScrobblingView {
        ScrobblingView {
            rows: rows_view(self.rows@),
            play: listen_view(self.play),
            current: text_of(self.current),
            started: self.started,
        }
    }
}

/// A copy of an account.
/// The account stored under the service `id`: the first entry with that id, if any.
pub open spec fn stored_account(stored: Seq<(String, Account)>, id: Seq<char>) -> Option<Account>
    decreases stored.len(),
{
    if stored.len() == 0 {
        None
    } else if stored[0].0@ == id {
        Some(stored[0].1)
    } else {
        stored_account(stored.drop_first(), id)
    }
}

/// A row with the account found for it read again: an empty account, unlinked and off, when
/// none was found.
pub open spec fn reread_stored(row: RowView, found: Option<Account>) -> RowView {
    match found {
        Some(account) => reread(row, account),
        None => RowView {
            name: Seq::empty(),
            linked: false,
            enabled: false,
            state: if row.state is Linking {
                row.state
            } else {
                StateView::Off
            },
            ..row
        },
    }
}

/// The account stored under the service `id`.
fn find_account<'a>(stored: &'a Vec<(String, Account)>, id: &String) -> (r: Option<&'a Account>)
    ensures
        match stored_account(stored@, id@) {
            Some(account) => r matches Some(found) && *found == account,
            None => r is None,
        },
{
    let mut i: usize = 0;
    assert(stored@.skip(0) =~= stored@);
    while i < stored.len()
        invariant
            i <= stored@.len(),
            stored_account(stored@, id@) == stored_account(stored@.skip(i as int), id@),
        decreases stored@.len() - i,
    {
        assert(stored@.skip(i as int).drop_first() =~= stored@.skip(i + 1));
        assert(stored@.skip(i as int)[0] == stored@[i as int]);
        if same_text(&stored[i].0, id) {
            return Some(&stored[i].1);
        }
        i = i + 1;
    }
    None
}

fn copy_account(account: &Account) -> (r: Account)
    ensures
        r.name@ == account.name@ && r.linked == account.linked && r.enabled == account.enabled,
{
    Account { name: account.name.clone(), linked: account.linked, enabled: account.enabled }
}

impl Scrobbling {
    /// One row per service, by id, each with its stored account read, and nothing playing.
    pub fn new(services: Vec<(String, Account)>) -> (r: Scrobbling)
        ensures
            r@.rows.len() == services@.len(),
            forall|i: int|
                0 <= i < services@.len() ==> #[trigger] r@.rows[i] == reread(
                    RowView {
                        id: services@[i].0@,
                        name: Seq::empty(),
                        linked: false,
                        enabled: false,
                        state: StateView::Off,
                        sent: false,
                    },
                    services@[i].1,
                ),
            r@.play is None,
            r@.current is None,
            r@.started == 0,
    {
        let mut rows: Vec<ScrobbleRow> = Vec::new();
        let mut i: usize = 0;
        while i < services.len()
            invariant
                i <= services@.len(),
                rows@.len() == i,
                forall|j: int|
                    0 <= j < i ==> #[trigger] rows@[j]@ == reread(
                        RowView {
                            id: services@[j].0@,
                            name: Seq::empty(),
                            linked: false,
                            enabled: false,
                            state: StateView::Off,
                            sent: false,
                        },
                        services@[j].1,
                    ),
            decreases services@.len() - i,
        {
            let (id, account) = (&services[i].0, &services[i].1);
            let state = if account.linked {
                ScrobbleState::On(account.name.clone())
            } else {
                ScrobbleState::Off
            };
            rows.push(ScrobbleRow { id: id.clone(), account: copy_account(account), state, sent: false });
            i = i + 1;
        }
        Scrobbling { rows, play: None, current: None, started: 0 }
    }

    /// The rows, one per service.
    pub fn rows(&self) -> (r: &Vec<ScrobbleRow>)
        ensures
            rows_view(r@) == self@.rows,
    {
        &self.rows
    }

    /// The listen of the current play, if any.
    pub fn play(&self) -> (r: &Option<Listen>)
        ensures
            listen_view(*r) == self@.play,
    {
        &self.play
    }

    /// When the current play began.
    pub fn started(&self) -> (r: u64)
        ensures
            r == self@.started,
    {
        self.started
    }

    /// Reads every stored account again, each row the one stored under its id, or an empty
    /// one, unlinked and off, when none is. A row in the middle of a link keeps its state, so
    /// turning another service off cannot wipe the one the user is waiting on.
    pub fn rebuild(&mut self, stored: &Vec<(String, Account)>)
        ensures
            final(self)@.rows.len() == old(self)@.rows.len(),
            forall|i: int|
                0 <= i < old(self)@.rows.len() ==> #[trigger] final(self)@.rows[i] == reread_stored(
                    old(self)@.rows[i],
                    stored_account(stored@, old(self)@.rows[i].id),
                ),
            final(self)@.play == old(self)@.play,
            final(self)@.current == old(self)@.current,
            final(self)@.started == old(self)@.started,
    {
        let ghost before = old(self)@.rows;
        let mut i: usize = 0;
        while i < self.rows.len()
            invariant
                i <= self.rows@.len(),
                self.rows@.len() == before.len(),
                forall|j: int|
                    0 <= j < i ==> #[trigger] self.rows@[j]@ == reread_stored(
                        before[j],
                        stored_account(stored@, before[j].id),
                    ),
                forall|j: int| i <= j < before.len() ==> #[trigger] self.rows@[j]@ == before[j],
                self@.play == old(self)@.play,
                self@.current == old(self)@.current,
                self@.started == old(self)@.started,
            decreases self.rows@.len() - i,
        {
            assert(self.rows@[i as int]@ == before[i as int]);
            let account = match find_account(stored, &self.rows[i].id) {
                Some(found) => copy_account(found),
                None => Account { name: String::new(), linked: false, enabled: false },
            };
            let linking = self.rows[i].linking();
            let state = if linking {
                ScrobbleState::Linking
            } else if account.linked {
                ScrobbleState::On(account.name.clone())
            } else {
                ScrobbleState::Off
            };
            let row = ScrobbleRow { id: self.rows[i].id.clone(), account, state, sent: self.rows[i].sent };
            self.rows.set(i, row);
            i = i + 1;
        }
        assert(rows_view(self.rows@) =~= Seq::new(
            before.len(),
            |j: int| reread_stored(before[j], stored_account(stored@, before[j].id)),
        ));
    }

    /// A link of the service of id `service` starts: its row shows it linking. Answers with
    /// the row's place, or nothing when no service has that id.
    pub fn connect(&mut self, service: &String) -> (r: Option<usize>)
        ensures
            match r {
                Some(i) => {
                    &&& i < old(self)@.rows.len()
                    &&& old(self)@.rows[i as int].id == service@
                    &&& forall|j: int| 0 <= j < i ==> #[trigger] old(self)@.rows[j].id != service@
                    &&& final(self)@ == (ScrobblingView {
                        rows: old(self)@.rows.update(
                            i as int,
                            RowView { state: StateView::Linking, ..old(self)@.rows[i as int] },
                        ),
                        ..old(self)@
                    })
                },
                None => {
                    &&& forall|j: int|
                        0 <= j < old(self)@.rows.len() ==> #[trigger] old(self)@.rows[j].id
                            != service@
                    &&& final(self)@ == old(self)@
                },
            },
    {
        let mut i: usize = 0;
        while i < self.rows.len()
            invariant
                i <= self.rows@.len(),
                *self == *old(self),
                forall|j: int| 0 <= j < i ==> #[trigger] old(self)@.rows[j].id != service@,
            decreases self.rows@.len() - i,
        {
            if crate::track::same_text(&self.rows[i].id, service) {
                let row = ScrobbleRow {
                    id: self.rows[i].id.clone(),
                    account: copy_account(&self.rows[i].account),
                    state: ScrobbleState::Linking,
                    sent: self.rows[i].sent,
                };
                self.rows.set(i, row);
                assert(rows_view(self.rows@) =~= old(self)@.rows.update(
                    i as int,
                    RowView { state: StateView::Linking, ..old(self)@.rows[i as int] },
                ));
                return Some(i);
            }
            assert(old(self)@.rows[i as int].id != service@);
            i = i + 1;
        }
        None
    }

    /// A link that ran on row `index` ended: on success the row is off until the stored
    /// account is read again; on failure it says so.
    pub fn link_ended(&mut self, index: usize, linked: bool)
        requires
            index < old(self)@.rows.len(),
        ensures
            final(self)@ == (ScrobblingView {
                rows: old(self)@.rows.update(
                    index as int,
                    RowView {
                        state: if linked {
                            StateView::Off
                        } else {
                            StateView::Failed(failed_key())
                        },
                        ..old(self)@.rows[index as int]
                    },
                ),
                ..old(self)@
            }),
    {
        proof {
            reveal_strlit("settings-scrobble-failed");
            assert("settings-scrobble-failed"@ =~= failed_key());
        }
        let state = if linked {
            ScrobbleState::Off
        } else {
            ScrobbleState::Failed(String::from_str("settings-scrobble-failed"))
        };
        let row = ScrobbleRow {
            id: self.rows[index].id.clone(),
            account: copy_account(&self.rows[index].account),
            state,
            sent: self.rows[index].sent,
        };
        self.rows.set(index, row);
        assert(rows_view(self.rows@) =~= old(self)@.rows.update(
            index as int,
            RowView {
                state: if linked {
                    StateView::Off
                } else {
                    StateView::Failed(failed_key())
                },
                ..old(self)@.rows[index as int]
            },
        ));
    }

    /// Gives up on a link that is still waiting: its row is off until the stored account is
    /// read again.
    pub fn cancel(&mut self)
        ensures
            final(self)@.rows.len() == old(self)@.rows.len(),
            forall|i: int|
                0 <= i < old(self)@.rows.len() ==> #[trigger] final(self)@.rows[i] == if old(
                    self,
                )@.rows[i].state is Linking {
                    RowView { state: StateView::Off, ..old(self)@.rows[i] }
                } else {
                    old(self)@.rows[i]
                },
            final(self)@.play == old(self)@.play,
            final(self)@.current == old(self)@.current,
            final(self)@.started == old(self)@.started,
    {
        let ghost before = old(self)@.rows;
        let mut i: usize = 0;
        while i < self.rows.len()
            invariant
                i <= self.rows@.len(),
                self.rows@.len() == before.len(),
                forall|j: int|
                    0 <= j < i ==> #[trigger] self.rows@[j]@ == if before[j].state is Linking {
                        RowView { state: StateView::Off, ..before[j] }
                    } else {
                        before[j]
                    },
                forall|j: int| i <= j < before.len() ==> #[trigger] self.rows@[j]@ == before[j],
                self@.play == old(self)@.play,
                self@.current == old(self)@.current,
                self@.started == old(self)@.started,
            decreases self.rows@.len() - i,
        {
            if self.rows[i].linking() {
                let row = ScrobbleRow {
                    id: self.rows[i].id.clone(),
                    account: copy_account(&self.rows[i].account),
                    state: ScrobbleState::Off,
                    sent: self.rows[i].sent,
                };
                self.rows.set(i, row);
            }
            i = i + 1;
        }
    }

    /// Sets whether each row has had the current play.
    fn mark_all(&mut self, sent: bool)
        ensures
            final(self)@.rows.len() == old(self)@.rows.len(),
            forall|i: int|
                0 <= i < old(self)@.rows.len() ==> #[trigger] final(self)@.rows[i] == (RowView {
                    sent,
                    ..old(self)@.rows[i]
                }),
            final(self)@.play == old(self)@.play,
            final(self)@.current == old(self)@.current,
            final(self)@.started == old(self)@.started,
    {
        let ghost before = old(self)@.rows;
        let mut i: usize = 0;
        while i < self.rows.len()
            invariant
                i <= self.rows@.len(),
                self.rows@.len() == before.len(),
                forall|j: int| 0 <= j < i ==> #[trigger] self.rows@[j]@ == (RowView { sent, ..before[j] }),
                forall|j: int| i <= j < before.len() ==> #[trigger] self.rows@[j]@ == before[j],
                self@.play == old(self)@.play,
                self@.current == old(self)@.current,
                self@.started == old(self)@.started,
            decreases self.rows@.len() - i,
        {
            assert(self.rows@[i as int]@ == before[i as int]);
            let row = ScrobbleRow {
                id: self.rows[i].id.clone(),
                account: copy_account(&self.rows[i].account),
                state: self.rows[i].state.clone_state(),
                sent,
            };
            self.rows.set(i, row);
            i = i + 1;
        }
    }

    /// The places of the live rows, and, where `unsent` is asked, only of those that have not
    /// had the play yet.
    fn due_rows(&self, unsent: bool) -> (r: Vec<usize>)
        ensures
            r@ == due(self@.rows, unsent),
    {
        let ghost all = self@.rows;
        let mut out: Vec<usize> = Vec::new();
        let mut i: usize = 0;
        while i < self.rows.len()
            invariant
                i <= self.rows@.len(),
                all == self@.rows,
                all == rows_view(self.rows@),
                out@ == due(all.subrange(0, i as int), unsent),
            decreases self.rows@.len() - i,
        {
            proof {
                assert(all.subrange(0, i + 1).drop_last() =~= all.subrange(0, i as int));
                assert(all.subrange(0, i + 1).last() == self.rows@[i as int]@);
            }
            let row = &self.rows[i];
            if row.live() && !(unsent && row.sent) {
                out.push(i);
            }
            i = i + 1;
        }
        assert(all.subrange(0, i as int) =~= all);
        out
    }

    /// A play started, of `track`, at `now`. A pause and resume of the same track keeps the
    /// original start, and what already went out for it; another track starts a play anew.
    /// Answers with the places of the live rows, to be told what plays; none when nothing
    /// plays or the track makes no listen.
    pub fn begin(&mut self, track: Option<&Credited>, now: u64) -> (told: Vec<usize>)
        ensures
            match track {
                None => final(self)@ == old(self)@ && told@.len() == 0,
                Some(track) => {
                    let resumed = track.track@.id is Some && old(self)@.current == track.track@.id;
                    let started = if resumed {
                        old(self)@.started
                    } else {
                        now
                    };
                    &&& final(self)@.current == if resumed {
                        old(self)@.current
                    } else {
                        track.track@.id
                    }
                    &&& final(self)@.started == started
                    &&& final(self)@.rows.len() == old(self)@.rows.len()
                    &&& forall|i: int|
                        0 <= i < old(self)@.rows.len() ==> #[trigger] final(self)@.rows[i] == if resumed {
                            old(self)@.rows[i]
                        } else {
                            RowView { sent: false, ..old(self)@.rows[i] }
                        }
                    &&& final(self)@.play == played_spec(*track, started)
                    &&& told@ == if final(self)@.play is Some {
                        due(final(self)@.rows, false)
                    } else {
                        Seq::empty()
                    }
                },
            },
    {
        let track = match track {
            Some(track) => track,
            None => {
                return Vec::new();
            },
        };
        let resumed = match (&track.track.id, &self.current) {
            (Some(id), Some(current)) => crate::track::same_text(id, current),
            _ => false,
        };
        if !resumed {
            self.current = crate::track::copy_optional(&track.track.id);
            self.started = now;
            self.mark_all(false);
        }
        self.play = played(track, self.started);
        if self.play.is_none() {
            return Vec::new();
        }
        self.due_rows(false)
    }

    /// The play ended: nothing plays, and every row waits for the next.
    pub fn end(&mut self)
        ensures
            final(self)@.play is None,
            final(self)@.current is None,
            final(self)@.started == old(self)@.started,
            final(self)@.rows.len() == old(self)@.rows.len(),
            forall|i: int|
                0 <= i < old(self)@.rows.len() ==> #[trigger] final(self)@.rows[i] == (RowView {
                    sent: false,
                    ..old(self)@.rows[i]
                }),
    {
        self.play = None;
        self.current = None;
        self.mark_all(false);
    }

    /// The player moved on: once the play runs and has earned a listen, it goes to every live
    /// service that has not had it yet, each marked as having had it. Answers with their places.
    pub fn tick(&mut self, playing: bool, earned: bool) -> (sent: Vec<usize>)
        ensures
            old(self)@.play is None || !playing || !earned ==> final(self)@ == old(self)@
                && sent@.len() == 0,
            old(self)@.play is Some && playing && earned ==> {
                &&& sent@ == due(old(self)@.rows, true)
                &&& final(self)@.play == old(self)@.play
                &&& final(self)@.current == old(self)@.current
                &&& final(self)@.started == old(self)@.started
                &&& final(self)@.rows.len() == old(self)@.rows.len()
                &&& forall|i: int|
                    0 <= i < old(self)@.rows.len() ==> #[trigger] final(self)@.rows[i] == (RowView {
                        sent: old(self)@.rows[i].sent || live(old(self)@.rows[i]),
                        ..old(self)@.rows[i]
                    })
            },
    {
        if self.play.is_none() || !playing || !earned {
            return Vec::new();
        }
        let sent = self.due_rows(true);
        let ghost before = old(self)@.rows;
        let mut i: usize = 0;
        while i < self.rows.len()
            invariant
                i <= self.rows@.len(),
                self.rows@.len() == before.len(),
                forall|j: int|
                    0 <= j < i ==> #[trigger] self.rows@[j]@ == (RowView {
                        sent: before[j].sent || live(before[j]),
                        ..before[j]
                    }),
                forall|j: int| i <= j < before.len() ==> #[trigger] self.rows@[j]@ == before[j],
                self@.play == old(self)@.play,
                self@.current == old(self)@.current,
                self@.started == old(self)@.started,
            decreases self.rows@.len() - i,
        {
            if !self.rows[i].sent && self.rows[i].live() {
                let row = ScrobbleRow {
                    id: self.rows[i].id.clone(),
                    account: copy_account(&self.rows[i].account),
                    state: self.rows[i].state.clone_state(),
                    sent: true,
                };
                self.rows.set(i, row);
            }
            i = i + 1;
        }
        sent
    }
}

impl ScrobbleState {
    /// A copy of the state.
    pub fn clone_state(&self) -> (r: ScrobbleState)
        ensures
            r@ == self@,
    {
        match self {
            ScrobbleState::Off => ScrobbleState::Off,
            ScrobbleState::Linking => ScrobbleState::Linking,
            ScrobbleState::On(name) => ScrobbleState::On(name.clone()),
            ScrobbleState::Failed(why) => ScrobbleState::Failed(why.clone()),
        }
    }
}

/// A play goes to each service at most once: right after a listen went out, a second tick
/// sends it nowhere.
pub proof fn lemma_each_service_hears_once(rows: Seq<RowView>)
    ensures
        due(
            Seq::new(
                rows.len(),
                |i: int| RowView { sent: rows[i].sent || live(rows[i]), ..rows[i] },
            ),
            true,
        ).len() == 0,
    decreases rows.len(),
{
    let after = Seq::new(
        rows.len(),
        |i: int| RowView { sent: rows[i].sent || live(rows[i]), ..rows[i] },
    );
    if rows.len() > 0 {
        lemma_each_service_hears_once(rows.drop_last());
        let rest = rows.drop_last();
        assert(after.drop_last() =~= Seq::new(
            rest.len(),
            |i: int| RowView { sent: rest[i].sent || live(rest[i]), ..rest[i] },
        ));
    }
}

/// Every place `due` names is a live row, and, where `unsent` is asked, one that has not had
/// the play yet.
pub proof fn lemma_due_rows_are_live(rows: Seq<RowView>, unsent: bool)
    requires
        rows.len() <= usize::MAX,
    ensures
        forall|k: int|
            0 <= k < due(rows, unsent).len() ==> {
                let i = #[trigger] due(rows, unsent)[k] as int;
                &&& 0 <= i < rows.len()
                &&& live(rows[i])
                &&& !(unsent && rows[i].sent)
            },
    decreases rows.len(),
{
    if rows.len() > 0 {
        lemma_due_rows_are_live(rows.drop_last(), unsent);
        let before = due(rows.drop_last(), unsent);
        assert forall|k: int| 0 <= k < due(rows, unsent).len() implies {
            let i = #[trigger] due(rows, unsent)[k] as int;
            &&& 0 <= i < rows.len()
            &&& live(rows[i])
            &&& !(unsent && rows[i].sent)
        } by {
            if k < before.len() {
                let i = before[k] as int;
                assert(rows.drop_last()[i] == rows[i]);
            } else {
                assert(due(rows, unsent) == before.push((rows.len() - 1) as usize));
                assert(rows.last() == rows[rows.len() - 1]);
            }
        }
    }
}

} // verus!
