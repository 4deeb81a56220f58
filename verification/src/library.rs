//! How a shelf of the library fills as its four parts land: each part is kept, or recorded as a
//! problem and kept empty, and once every awaited part has landed the shelf fails as a whole
//! only when every part it cannot do without failed.

use vstd::prelude::*;

use crate::text::{chars_of, string_of};
use crate::feed::Tile;
use crate::track::Track;

verus! {

/// What the library tells the views.
#[derive(Clone, Debug, PartialEq, Eq)]
pub enum LibraryEvent {
    PlaylistGone(String),
    TrackAdded { playlist: String },
    TrackDropped { playlist: String, track: String },
}

/// One of the four lists a shelf holds.
#[derive(Clone, Copy, Debug, PartialEq, Eq, Structural)]
pub enum LibraryPart {
    Tracks,
    Playlists,
    Albums,
    Artists,
}

/// The name a part goes by in messages.
pub open spec fn label_of(part: LibraryPart) -> Seq<char> {
    match part {
        LibraryPart::Tracks => seq!['s', 'o', 'n', 'g', 's'],
        LibraryPart::Playlists => seq!['p', 'l', 'a', 'y', 'l', 'i', 's', 't', 's'],
        LibraryPart::Albums => seq!['a', 'l', 'b', 'u', 'm', 's'],
        LibraryPart::Artists => seq!['a', 'r', 't', 'i', 's', 't', 's'],
    }
}

impl LibraryPart {
    /// Every part, in the order a shelf lists them.
    pub fn all() -> (r: [LibraryPart; 4])
        ensures
            r@ == seq![
                LibraryPart::Tracks,
                LibraryPart::Playlists,
                LibraryPart::Albums,
                LibraryPart::Artists,
            ],
    {
        let r = [LibraryPart::Tracks, LibraryPart::Playlists, LibraryPart::Albums, LibraryPart::Artists];
        assert(r@ =~= seq![
            LibraryPart::Tracks,
            LibraryPart::Playlists,
            LibraryPart::Albums,
            LibraryPart::Artists,
        ]);
        r
    }

    /// The name the part goes by in messages.
    pub fn label(self) -> (r: &'static str)
        ensures
            r@ == label_of(self),
    {
        proof {
            reveal_strlit("songs");
            reveal_strlit("playlists");
            reveal_strlit("albums");
            reveal_strlit("artists");
        }
        match self {
            LibraryPart::Tracks => "songs",
            LibraryPart::Playlists => "playlists",
            LibraryPart::Albums => "albums",
            LibraryPart::Artists => "artists",
        }
    }
}

/// A part that could not be loaded, and why.
#[derive(Clone, Debug, PartialEq, Eq)]
pub struct Problem {
    pub part: LibraryPart,
    pub reason: String,
}

/// A shelf: nothing yet, loading, its four lists with the problems of the parts that failed,
/// or failed as a whole.
pub enum LibraryState<T, P, A, R> {
    Empty,
    Loading,
    Ready {
        tracks: Vec<T>,
        playlists: Vec<P>,
        albums: Vec<A>,
        artists: Vec<R>,
        problems: Vec<Problem>,
    },
    Failed(String),
}

/// One part that landed: its list, or why it could not be loaded.
pub enum Landed<T, P, A, R> {
    Tracks(Result<Vec<T>, String>),
    Playlists(Result<Vec<P>, String>),
    Albums(Result<Vec<A>, String>),
    Artists(Result<Vec<R>, String>),
}

/// The part a landing is for.
pub open spec fn part_of<T, P, A, R>(landed: Landed<T, P, A, R>) -> LibraryPart {
    match landed {
        Landed::Tracks(_) => LibraryPart::Tracks,
        Landed::Playlists(_) => LibraryPart::Playlists,
        Landed::Albums(_) => LibraryPart::Albums,
        Landed::Artists(_) => LibraryPart::Artists,
    }
}

impl<T, P, A, R> Landed<T, P, A, R> {
    /// The part this landing is for.
    pub fn part(&self) -> (r: LibraryPart)
        ensures
            r == part_of(*self),
    {
        match self {
            Landed::Tracks(_) => LibraryPart::Tracks,
            Landed::Playlists(_) => LibraryPart::Playlists,
            Landed::Albums(_) => LibraryPart::Albums,
            Landed::Artists(_) => LibraryPart::Artists,
        }
    }
}

/// A list as it lands: kept, or empty with the reason recorded as a problem of its part.
pub open spec fn kept<T>(result: Result<Vec<T>, String>) -> Seq<T> {
    match result {
        Ok(list) => list@,
        Err(_) => Seq::empty(),
    }
}

/// The problems after a landing: one more for a failed part.
pub open spec fn with_problem<T>(problems: Seq<Problem>, part: LibraryPart, result: Result<Vec<T>, String>) -> Seq<Problem> {
    match result {
        Ok(_) => problems,
        Err(reason) => problems.push(Problem { part, reason }),
    }
}

/// A list as it lands, with the problems it leaves.
pub fn take<T>(part: LibraryPart, result: Result<Vec<T>, String>, problems: &mut Vec<Problem>) -> (r: Vec<T>)
    ensures
        r@ == kept(result),
        final(problems)@ == with_problem(old(problems)@, part, result),
{
    match result {
        Ok(list) => list,
        Err(reason) => {
            problems.push(Problem { part, reason });
            Vec::new()
        },
    }
}

/// The first problem of `part`.
pub open spec fn problem_of(problems: Seq<Problem>, part: LibraryPart) -> Option<Problem>
    decreases problems.len(),
{
    if problems.len() == 0 {
        None
    } else if problems[0].part == part {
        Some(problems[0])
    } else {
        problem_of(problems.drop_first(), part)
    }
}

/// Whether every part in `fatal` has a problem.
pub open spec fn all_failed(problems: Seq<Problem>, fatal: Seq<LibraryPart>) -> bool {
    forall|i: int| 0 <= i < fatal.len() ==> #[trigger] problem_of(problems, fatal[i]) is Some
}

/// The reasons of the first problems of the `fatal` parts, in the order of `fatal`, one line
/// each.
pub open spec fn reasons(problems: Seq<Problem>, fatal: Seq<LibraryPart>) -> Seq<char>
    decreases fatal.len(),
{
    if fatal.len() == 0 {
        Seq::empty()
    } else {
        let last = problem_of(problems, fatal.last()).unwrap().reason@;
        if fatal.len() == 1 {
            last
        } else {
            reasons(problems, fatal.drop_last()) + seq!['\n'] + last
        }
    }
}

/// The awaited parts but `part`.
pub open spec fn still_awaited(awaited: Seq<LibraryPart>, part: LibraryPart) -> Seq<LibraryPart> {
    awaited.filter(|other: LibraryPart| other != part)
}

/// The lists of a ready shelf, and its problems.
pub struct Lists<T, P, A, R> {
    pub tracks: Seq<T>,
    pub playlists: Seq<P>,
    pub albums: Seq<A>,
    pub artists: Seq<R>,
    pub problems: Seq<Problem>,
}

/// The lists a shelf starts from: a ready shelf's own, empty lists otherwise.
pub open spec fn lists_of<T, P, A, R>(state: LibraryState<T, P, A, R>) -> Lists<T, P, A, R> {
    match state {
        LibraryState::Ready { tracks, playlists, albums, artists, problems } => Lists {
            tracks: tracks@,
            playlists: playlists@,
            albums: albums@,
            artists: artists@,
            problems: problems@,
        },
        _ => Lists {
            tracks: Seq::empty(),
            playlists: Seq::empty(),
            albums: Seq::empty(),
            artists: Seq::empty(),
            problems: Seq::empty(),
        },
    }
}

/// The lists after a landing: the landed list replaces its part's, a failure adds a problem.
pub open spec fn landed_in<T, P, A, R>(lists: Lists<T, P, A, R>, landed: Landed<T, P, A, R>) -> Lists<
    T,
    P,
    A,
    R,
> {
    match landed {
        Landed::Tracks(result) => Lists {
            tracks: kept(result),
            problems: with_problem(lists.problems, LibraryPart::Tracks, result),
            ..lists
        },
        Landed::Playlists(result) => Lists {
            playlists: kept(result),
            problems: with_problem(lists.problems, LibraryPart::Playlists, result),
            ..lists
        },
        Landed::Albums(result) => Lists {
            albums: kept(result),
            problems: with_problem(lists.problems, LibraryPart::Albums, result),
            ..lists
        },
        Landed::Artists(result) => Lists {
            artists: kept(result),
            problems: with_problem(lists.problems, LibraryPart::Artists, result),
            ..lists
        },
    }
}

/// What a shelf holds, as plain lists, or why it failed.
pub open spec fn shelf_of<T, P, A, R>(state: LibraryState<T, P, A, R>) -> Result<Lists<T, P, A, R>, Seq<char>> {
    match state {
        LibraryState::Failed(reason) => Err(reason@),
        LibraryState::Ready { .. } => Ok(lists_of(state)),
        _ => Err(Seq::empty()),
    }
}

/// The first problem of `part`.
fn find_problem(problems: &Vec<Problem>, part: LibraryPart) -> (r: Option<usize>)
    ensures
        match r {
            Some(i) => i < problems@.len() && problem_of(problems@, part) == Some(problems@[i as int]),
            None => problem_of(problems@, part) is None,
        },
{
    let mut i: usize = 0;
    assert(problems@.skip(0) =~= problems@);
    while i < problems.len()
        invariant
            i <= problems@.len(),
            problem_of(problems@, part) == problem_of(problems@.skip(i as int), part),
        decreases problems@.len() - i,
    {
        assert(problems@.skip(i as int).drop_first() =~= problems@.skip(i + 1));
        if problems[i].part == part {
            return Some(i);
        }
        i = i + 1;
    }
    None
}

/// The reason the shelf fails with, when every part in `fatal` has a problem.
fn failure(problems: &Vec<Problem>, fatal: &[LibraryPart]) -> (r: Option<String>)
    ensures
        match r {
            Some(reason) => all_failed(problems@, fatal@) && reason@ == reasons(problems@, fatal@),
            None => !all_failed(problems@, fatal@),
        },
{
    let mut text: Vec<char> = Vec::new();
    let mut i: usize = 0;
    while i < fatal.len()
        invariant
            i <= fatal@.len(),
            all_failed(problems@, fatal@.subrange(0, i as int)),
            text@ == reasons(problems@, fatal@.subrange(0, i as int)),
        decreases fatal@.len() - i,
    {
        let ghost before = fatal@.subrange(0, i as int);
        let ghost upto = fatal@.subrange(0, i + 1);
        assert(upto.drop_last() =~= before);
        let at = match find_problem(problems, fatal[i]) {
            Some(at) => at,
            None => {
                assert(problem_of(problems@, fatal@[i as int]) is None);
                return None;
            },
        };
        if i > 0 {
            text.push('\n');
        }
        let mut reason = chars_of(problems[at].reason.as_str());
        text.append(&mut reason);
        i = i + 1;
        assert forall|k: int| 0 <= k < upto.len() implies #[trigger] problem_of(problems@, upto[k]) is Some by {
            if k < before.len() {
                assert(upto[k] == before[k]);
            }
        }
        assert(text@ =~= reasons(problems@, upto));
    }
    assert(fatal@.subrange(0, i as int) =~= fatal@);
    Some(string_of(&text))
}

/// Puts a landed part into the shelf. The part is no longer awaited; a shelf that was not ready
/// becomes ready with empty lists first; the landed list replaces its part's, or a failure is
/// recorded as a problem; and once nothing is awaited, a shelf where every part in `fatal`
/// failed fails with their reasons, one line each.
pub fn place<T, P, A, R>(
    state: &mut LibraryState<T, P, A, R>,
    awaited: &mut Vec<LibraryPart>,
    landed: Landed<T, P, A, R>,
    fatal: &[LibraryPart],
)
    ensures
        final(awaited)@ == still_awaited(old(awaited)@, part_of(landed)),
        ({
            let lists = landed_in(lists_of(*old(state)), landed);
            if final(awaited)@.len() == 0 && all_failed(lists.problems, fatal@) {
                shelf_of(*final(state)) == Err::<Lists<T, P, A, R>, Seq<char>>(
                    reasons(lists.problems, fatal@),
                )
            } else {
                shelf_of(*final(state)) == Ok::<Lists<T, P, A, R>, Seq<char>>(lists)
            }
        }),
{
    let part = landed.part();
    let ghost before = awaited@;
    let mut rest: Vec<LibraryPart> = Vec::new();
    let mut i: usize = 0;
    while i < awaited.len()
        invariant
            i <= before.len(),
            awaited@ == before,
            rest@ == still_awaited(before.subrange(0, i as int), part),
        decreases before.len() - i,
    {
        let ghost upto = before.subrange(0, i + 1);
        assert(upto.drop_last() =~= before.subrange(0, i as int));
        reveal(Seq::filter);
        if awaited[i] != part {
            rest.push(awaited[i]);
        }
        i = i + 1;
    }
    assert(before.subrange(0, i as int) =~= before);
    *awaited = rest;

    let mut taken = LibraryState::Empty;
    std::mem::swap(&mut taken, state);
    let (mut tracks, mut playlists, mut albums, mut artists, mut problems) = match taken {
        LibraryState::Ready { tracks, playlists, albums, artists, problems } => (
            tracks,
            playlists,
            albums,
            artists,
            problems,
        ),
        _ => (Vec::new(), Vec::new(), Vec::new(), Vec::new(), Vec::new()),
    };
    match landed {
        Landed::Tracks(result) => {
            tracks = take(part, result, &mut problems);
        },
        Landed::Playlists(result) => {
            playlists = take(part, result, &mut problems);
        },
        Landed::Albums(result) => {
            albums = take(part, result, &mut problems);
        },
        Landed::Artists(result) => {
            artists = take(part, result, &mut problems);
        },
    }
    if awaited.len() == 0 {
        if let Some(reason) = failure(&problems, fatal) {
            *state = LibraryState::Failed(reason);
            return;
        }
    }
    *state = LibraryState::Ready { tracks, playlists, albums, artists, problems };
}


/// A saved item the library tells apart by its id.
pub trait Keyed: Sized {
    /// The item's id, as a plain value.
    spec fn key_spec(&self) -> Option<Seq<char>>;

    /// A copy of the item.
    fn twin(&self) -> (r: Self)
        ensures
            r == *self,
    ;

    /// The item's id.
    fn key(&self) -> (r: Option<&String>)
        ensures
            match r {
                Some(key) => self.key_spec() == Some(key@),
                None => self.key_spec() is None,
            },
    ;
}

impl Keyed for Track {
    open spec fn key_spec(&self) -> Option<Seq<char>> {
        self@.id
    }

    fn twin(&self) -> (r: Self) {
        self.copy()
    }

    fn key(&self) -> (r: Option<&String>) {
        match &self.id {
            Some(id) => Some(id),
            None => None,
        }
    }
}

impl Keyed for Tile {
    open spec fn key_spec(&self) -> Option<Seq<char>> {
        Some(self.id@)
    }

    fn twin(&self) -> (r: Self) {
        Tile { id: self.id.clone(), name: self.name.clone() }
    }

    fn key(&self) -> (r: Option<&String>) {
        Some(&self.id)
    }
}

/// Whether an id is missing on both sides or reads the same on both.
fn same_key(left: Option<&String>, right: &Option<String>) -> (r: bool)
    ensures
        r == (match left {
            Some(key) => Some(key@),
            None => None::<Seq<char>>,
        } == crate::track::text_of(*right)),
{
    match (left, right) {
        (Some(left), Some(right)) => crate::track::same_text(left, right),
        (None, None) => true,
        _ => false,
    }
}

/// A copy of an id.
fn owned_key(key: Option<&String>) -> (r: Option<String>)
    ensures
        crate::track::text_of(r) == match key {
            Some(key) => Some(key@),
            None => None::<Seq<char>>,
        },
{
    match key {
        Some(key) => Some(key.clone()),
        None => None,
    }
}

/// Whether an item of that id is among the items.
pub open spec fn holds_key<T: Keyed>(items: Seq<T>, key: Option<Seq<char>>) -> bool {
    exists|j: int| 0 <= j < items.len() && #[trigger] items[j].key_spec() == key
}

/// The items without those of that id, in order.
pub open spec fn unheld<T: Keyed>(items: Seq<T>, key: Option<Seq<char>>) -> Seq<T>
    decreases items.len(),
{
    if items.len() == 0 {
        Seq::empty()
    } else {
        let before = unheld(items.drop_last(), key);
        if items.last().key_spec() == key {
            before
        } else {
            before.push(items.last())
        }
    }
}

/// A list of saved items after `item` is saved or unsaved: saving adds it, first or last,
/// unless an item of its id is there already; unsaving drops every item of its id.
pub open spec fn held_spec<T: Keyed>(items: Seq<T>, item: T, saved: bool, first: bool) -> Seq<T> {
    if saved {
        if holds_key(items, item.key_spec()) {
            items
        } else if first {
            seq![item] + items
        } else {
            items.push(item)
        }
    } else {
        unheld(items, item.key_spec())
    }
}

/// Whether an item of that id is among the items.
pub fn has_key<T: Keyed>(items: &Vec<T>, key: &Option<String>) -> (r: bool)
    ensures
        r == holds_key(items@, crate::track::text_of(*key)),
{
    let mut i: usize = 0;
    while i < items.len()
        invariant
            i <= items@.len(),
            forall|j: int| 0 <= j < i ==> #[trigger] items@[j].key_spec() != crate::track::text_of(
                *key,
            ),
        decreases items@.len() - i,
    {
        if same_key(items[i].key(), key) {
            return true;
        }
        i = i + 1;
    }
    false
}

/// Drops every item of that id, keeping the others in order.
fn drop_key<T: Keyed>(items: &mut Vec<T>, key: &Option<String>)
    ensures
        final(items)@ == unheld(old(items)@, crate::track::text_of(*key)),
{
    let ghost k = crate::track::text_of(*key);
    let mut all: Vec<T> = Vec::new();
    std::mem::swap(&mut all, items);
    let ghost before = all@;
    assert(items@ =~= unheld(before.subrange(0, 0), k));
    while all.len() > 0
        invariant
            all@.len() <= before.len(),
            all@ == before.subrange(before.len() - all@.len(), before.len() as int),
            items@ == unheld(before.subrange(0, before.len() - all@.len()), k),
            k == crate::track::text_of(*key),
        decreases all@.len(),
    {
        let ghost gone = before.len() - all@.len();
        let ghost was = all@;
        let item = all.remove(0);
        proof {
            assert(before.subrange(0, gone + 1).drop_last() =~= before.subrange(0, gone));
            assert(was[0] == before.subrange(gone, before.len() as int)[0]);
            assert(all@ =~= before.subrange(gone + 1, before.len() as int));
        }
        if !same_key(item.key(), key) {
            items.push(item);
        }
        assert(items@ =~= unheld(before.subrange(0, gone + 1), k));
    }
    assert(before.subrange(0, before.len() as int) =~= before);
}

/// Saves `item` in a list of saved items, first or last, unless an item of its id is there
/// already; or, unsaving it, drops every item of its id.
pub fn hold<T: Keyed>(items: &mut Vec<T>, item: T, saved: bool, first: bool)
    ensures
        final(items)@ == held_spec(old(items)@, item, saved, first),
{
    if saved {
        let key = owned_key(item.key());
        if !has_key(items, &key) {
            if first {
                items.insert(0, item);
                assert(items@ =~= seq![item] + old(items)@);
            } else {
                items.push(item);
            }
        }
    } else {
        let key = owned_key(item.key());
        drop_key(items, &key);
    }
}

/// Marks a track saved or not on a shelf: in its favorites first, when the shelf keeps them
/// apart from its tracks, or else among its tracks, last, when the shelf is ready.
pub fn set_saved<P, A, R>(
    favorites: &mut Option<Vec<Track>>,
    state: &mut LibraryState<Track, P, A, R>,
    track: Track,
    saved: bool,
)
    ensures
        match *old(favorites) {
            Some(held) => {
                &&& *final(state) == *old(state)
                &&& *final(favorites) matches Some(now)
                &&& now@ == held_spec(held@, track, saved, true)
            },
            None => {
                &&& *final(favorites) is None
                &&& match *old(state) {
                    LibraryState::Ready { tracks, playlists, albums, artists, problems } => {
                        &&& *final(state) matches LibraryState::Ready {
                            tracks: now,
                            playlists: playlists2,
                            albums: albums2,
                            artists: artists2,
                            problems: problems2,
                        }
                        &&& now@ == held_spec(tracks@, track, saved, false)
                        &&& playlists2 == playlists && albums2 == albums && artists2 == artists
                        &&& problems2 == problems
                    },
                    _ => *final(state) == *old(state),
                }
            },
        },
{
    match favorites {
        Some(held) => {
            hold(held, track, saved, true);
        },
        None => match state {
            LibraryState::Ready { tracks, .. } => {
                hold(tracks, track, saved, false);
            },
            _ => {},
        },
    }
}

/// Marks an album saved or not on a ready shelf, last among its albums.
pub fn set_album_saved<T, P, A: Keyed, R>(state: &mut LibraryState<T, P, A, R>, album: A, saved: bool)
    ensures
        match *old(state) {
            LibraryState::Ready { tracks, playlists, albums, artists, problems } => {
                &&& *final(state) matches LibraryState::Ready {
                    tracks: tracks2,
                    playlists: playlists2,
                    albums: now,
                    artists: artists2,
                    problems: problems2,
                }
                &&& now@ == held_spec(albums@, album, saved, false)
                &&& tracks2 == tracks && playlists2 == playlists && artists2 == artists && problems2 == problems
            },
            _ => *final(state) == *old(state),
        },
{
    match state {
        LibraryState::Ready { albums, .. } => {
            hold(albums, album, saved, false);
        },
        _ => {},
    }
}

/// Marks an artist saved or not on a ready shelf, last among its artists.
pub fn set_artist_saved<T, P, A, R: Keyed>(state: &mut LibraryState<T, P, A, R>, artist: R, saved: bool)
    ensures
        match *old(state) {
            LibraryState::Ready { tracks, playlists, albums, artists, problems } => {
                &&& *final(state) matches LibraryState::Ready {
                    tracks: tracks2,
                    playlists: playlists2,
                    albums: albums2,
                    artists: now,
                    problems: problems2,
                }
                &&& now@ == held_spec(artists@, artist, saved, false)
                &&& tracks2 == tracks && playlists2 == playlists && albums2 == albums && problems2 == problems
            },
            _ => *final(state) == *old(state),
        },
{
    match state {
        LibraryState::Ready { artists, .. } => {
            hold(artists, artist, saved, false);
        },
        _ => {},
    }
}

/// Puts a playlist on a ready shelf, last, in place of any of its id.
pub fn insert_playlist<T, P: Keyed, A, R>(state: &mut LibraryState<T, P, A, R>, playlist: P)
    ensures
        match *old(state) {
            LibraryState::Ready { tracks, playlists, albums, artists, problems } => {
                &&& *final(state) matches LibraryState::Ready {
                    tracks: tracks2,
                    playlists: now,
                    albums: albums2,
                    artists: artists2,
                    problems: problems2,
                }
                &&& now@ == unheld(playlists@, playlist.key_spec()).push(playlist)
                &&& tracks2 == tracks && albums2 == albums && artists2 == artists && problems2 == problems
            },
            _ => *final(state) == *old(state),
        },
{
    match state {
        LibraryState::Ready { playlists, .. } => {
            let key = owned_key(playlist.key());
            drop_key(playlists, &key);
            playlists.push(playlist);
        },
        _ => {},
    }
}

/// Takes the playlist of id `id` off a ready shelf.
pub fn drop_playlist<T, P: Keyed, A, R>(state: &mut LibraryState<T, P, A, R>, id: &String)
    ensures
        match *old(state) {
            LibraryState::Ready { tracks, playlists, albums, artists, problems } => {
                &&& *final(state) matches LibraryState::Ready {
                    tracks: tracks2,
                    playlists: now,
                    albums: albums2,
                    artists: artists2,
                    problems: problems2,
                }
                &&& now@ == unheld(playlists@, Some(id@))
                &&& tracks2 == tracks && albums2 == albums && artists2 == artists && problems2 == problems
            },
            _ => *final(state) == *old(state),
        },
{
    match state {
        LibraryState::Ready { playlists, .. } => {
            drop_key(playlists, &Some(id.clone()));
        },
        _ => {},
    }
}

/// The saved tracks of a shelf: its favorites when it keeps them apart, or else its tracks
/// when it is ready, or none.
pub open spec fn favorites_spec<P, A, R>(
    favorites: Option<Vec<Track>>,
    state: LibraryState<Track, P, A, R>,
) -> Seq<Track> {
    match favorites {
        Some(held) => held@,
        None => match state {
            LibraryState::Ready { tracks, .. } => tracks@,
            _ => Seq::empty(),
        },
    }
}

/// Whether a shelf holds the track of id `id` saved.
pub fn saved<P, A, R>(
    favorites: &Option<Vec<Track>>,
    state: &LibraryState<Track, P, A, R>,
    id: &String,
) -> (r: bool)
    ensures
        r == holds_key(favorites_spec(*favorites, *state), Some(id@)),
{
    let key = Some(id.clone());
    match favorites {
        Some(held) => has_key(held, &key),
        None => match state {
            LibraryState::Ready { tracks, .. } => has_key(tracks, &key),
            _ => false,
        },
    }
}

/// Saving twice keeps one: a second save of the same item changes nothing.
pub proof fn lemma_saving_twice<T: Keyed>(items: Seq<T>, item: T, first: bool)
    ensures
        held_spec(held_spec(items, item, true, first), item, true, first) == held_spec(
            items,
            item,
            true,
            first,
        ),
{
    let once = held_spec(items, item, true, first);
    if !holds_key(items, item.key_spec()) {
        if first {
            assert(once[0] == item);
        } else {
            assert(once[items.len() as int] == item);
        }
    }
}

/// Unsaving leaves no item of that id.
pub proof fn lemma_unsaved_is_gone<T: Keyed>(items: Seq<T>, key: Option<Seq<char>>)
    ensures
        !holds_key(unheld(items, key), key),
        unheld(items, key).len() <= items.len(),
    decreases items.len(),
{
    if items.len() > 0 {
        lemma_unsaved_is_gone(items.drop_last(), key);
        let before = unheld(items.drop_last(), key);
        if items.last().key_spec() != key {
            assert forall|j: int| 0 <= j < before.push(items.last()).len() implies #[trigger] before.push(
                items.last(),
            )[j].key_spec() != key by {
                if j < before.len() {
                    assert(before.push(items.last())[j] == before[j]);
                }
            }
        }
    }
}

/// Dropping an id that no item has changes nothing.
pub proof fn lemma_unheld_absent<T: Keyed>(items: Seq<T>, key: Option<Seq<char>>)
    requires
        !holds_key(items, key),
    ensures
        unheld(items, key) == items,
    decreases items.len(),
{
    if items.len() > 0 {
        assert(!holds_key(items.drop_last(), key)) by {
            if holds_key(items.drop_last(), key) {
                let j = choose|j: int|
                    0 <= j < items.drop_last().len() && #[trigger] items.drop_last()[j].key_spec()
                        == key;
                assert(items[j] == items.drop_last()[j]);
            }
        }
        lemma_unheld_absent(items.drop_last(), key);
        assert(items.last() == items[items.len() - 1]);
        assert(items.drop_last().push(items.last()) =~= items);
    }
}

/// Saving an item that was not saved and then unsaving it leaves the list as it was.
pub proof fn lemma_unsave_undoes_save<T: Keyed>(items: Seq<T>, item: T, first: bool)
    requires
        !holds_key(items, item.key_spec()),
    ensures
        held_spec(held_spec(items, item, true, first), item, false, first) == items,
{
    lemma_unheld_absent(items, item.key_spec());
    if first {
        lemma_unheld_front(items, item);
    } else {
        assert((items.push(item)).drop_last() =~= items);
    }
}

/// Dropping the id of an item put first drops it and what else has that id.
proof fn lemma_unheld_front<T: Keyed>(items: Seq<T>, item: T)
    ensures
        unheld(seq![item] + items, item.key_spec()) == unheld(items, item.key_spec()),
    decreases items.len(),
{
    if items.len() == 0 {
        assert(seq![item] + items =~= seq![item]);
        assert(seq![item].drop_last() =~= Seq::<T>::empty());
        assert(seq![item].last() == item);
        assert(unheld(Seq::<T>::empty(), item.key_spec()) =~= Seq::<T>::empty());
    } else {
        lemma_unheld_front(items.drop_last(), item);
        assert((seq![item] + items).drop_last() =~= seq![item] + items.drop_last());
        assert((seq![item] + items).last() == items.last());
    }
}


/// Takes the track of id `id` off a list of shown tracks, as a page showing a playlist does
/// when the track is dropped from it.
pub fn drop_track(tracks: &mut Vec<Track>, id: &String)
    ensures
        final(tracks)@ == unheld(old(tracks)@, Some(id@)),
{
    drop_key(tracks, &Some(id.clone()));
}

/// Whether a track's id is one of `ids`.
pub open spec fn hidden_by(track: Track, ids: Seq<Seq<char>>) -> bool {
    track@.id matches Some(id) && ids.contains(id)
}

/// The tracks that stay when those of `ids` are hidden: those without an id, and those whose
/// id is not among `ids`, in order.
pub open spec fn unhidden(tracks: Seq<Track>, ids: Seq<Seq<char>>) -> Seq<Track>
    decreases tracks.len(),
{
    if tracks.len() == 0 {
        Seq::empty()
    } else {
        let before = unhidden(tracks.drop_last(), ids);
        if hidden_by(tracks.last(), ids) {
            before
        } else {
            before.push(tracks.last())
        }
    }
}

/// Whether a text is one of `texts`.
pub(crate) fn among(texts: &Vec<String>, text: &String) -> (r: bool)
    ensures
        r == crate::feed::texts_view(texts@).contains(text@),
{
    let ghost all = crate::feed::texts_view(texts@);
    let mut i: usize = 0;
    while i < texts.len()
        invariant
            i <= texts@.len(),
            all == crate::feed::texts_view(texts@),
            forall|j: int| 0 <= j < i ==> #[trigger] all[j] != text@,
        decreases texts@.len() - i,
    {
        if crate::track::same_text(&texts[i], text) {
            assert(all[i as int] == text@);
            return true;
        }
        i = i + 1;
    }
    false
}

/// Takes the tracks of `ids` off a list of shown tracks, keeping the others in order. Answers
/// whether any was taken off.
pub fn hide_tracks(tracks: &mut Vec<Track>, ids: &Vec<String>) -> (changed: bool)
    ensures
        final(tracks)@ == unhidden(old(tracks)@, crate::feed::texts_view(ids@)),
        changed == (final(tracks)@.len() != old(tracks)@.len()),
{
    let ghost wanted = crate::feed::texts_view(ids@);
    let mut all: Vec<Track> = Vec::new();
    std::mem::swap(&mut all, tracks);
    let ghost before = all@;
    let count = all.len();
    assert(tracks@ =~= unhidden(before.subrange(0, 0), wanted));
    while all.len() > 0
        invariant
            all@.len() <= before.len(),
            count == before.len(),
            all@ == before.subrange(before.len() - all@.len(), before.len() as int),
            tracks@ == unhidden(before.subrange(0, before.len() - all@.len()), wanted),
            wanted == crate::feed::texts_view(ids@),
        decreases all@.len(),
    {
        let ghost gone = before.len() - all@.len();
        let ghost was = all@;
        let track = all.remove(0);
        proof {
            assert(before.subrange(0, gone + 1).drop_last() =~= before.subrange(0, gone));
            assert(was[0] == before.subrange(gone, before.len() as int)[0]);
            assert(all@ =~= before.subrange(gone + 1, before.len() as int));
        }
        let hidden = match &track.id {
            Some(id) => among(ids, id),
            None => false,
        };
        if !hidden {
            tracks.push(track);
        }
        assert(tracks@ =~= unhidden(before.subrange(0, gone + 1), wanted));
    }
    assert(before.subrange(0, before.len() as int) =~= before);
    tracks.len() != count
}


/// What a page of an album or a playlist shows.
#[derive(Clone, Copy, Debug, PartialEq, Eq, Structural)]
pub enum Collection {
    Album,
    Playlist,
}

/// What happens around a page of an album or a playlist.
pub enum DetailHappening {
    /// An account signed out; `ours` tells whether the page shows what that account provides.
    SignedOut { ours: bool },
    /// An account signed in; `ours` as for `SignedOut`.
    SignedIn { ours: bool },
    /// The library changed.
    Library(LibraryEvent),
    /// The tracks of these ids were hidden.
    TracksHidden(Vec<String>),
}

/// What a page of an album or a playlist does about what happened.
#[derive(Clone, Debug, PartialEq, Eq)]
pub enum DetailStep {
    /// Nothing.
    Stay,
    /// Show its tracks again, as they changed.
    Redraw,
    /// Forget what it shows.
    Clear,
    /// Forget what it shows and open `id` afresh, as a `kind`.
    Reopen { kind: Collection, id: String },
    /// Load the playlist `id` again.
    Reload { id: String },
}

/// Whether the page shows the collection of id `id`.
pub open spec fn shows(shown: Option<String>, id: Seq<char>) -> bool {
    shown matches Some(at) && at@ == id
}

/// Whether the page shows the collection of id `id`.
fn showing(shown: &Option<String>, id: &String) -> (r: bool)
    ensures
        r == shows(*shown, id@),
{
    match shown {
        Some(at) => crate::track::same_text(at, id),
        None => false,
    }
}

/// What a page showing `shown` (as a `kind`, with `tracks`) does about `happening`. It forgets
/// what it shows when the account that provides it signs out, and opens it afresh when that
/// account signs in; it loads its playlist again when a track is added to it, takes a track
/// dropped from it off its tracks, and takes hidden tracks off, redrawing when any went.
pub fn detail_step(
    shown: &Option<String>,
    kind: Option<Collection>,
    tracks: &mut Vec<Track>,
    happening: DetailHappening,
) -> (r: DetailStep)
    ensures
        match happening {
            DetailHappening::SignedOut { ours } => final(tracks)@ == old(tracks)@ && r == if ours
                && shown is Some {
                DetailStep::Clear
            } else {
                DetailStep::Stay
            },
            DetailHappening::SignedIn { ours } => final(tracks)@ == old(tracks)@ && if ours
                && shown is Some && kind is Some {
                r matches DetailStep::Reopen { kind: opened, id } && opened == kind->0 && id@
                    == shown->0@
            } else {
                r == DetailStep::Stay
            },
            DetailHappening::Library(LibraryEvent::TrackAdded { playlist }) => final(tracks)@
                == old(tracks)@ && if shows(*shown, playlist@) {
                r matches DetailStep::Reload { id } && id@ == playlist@
            } else {
                r == DetailStep::Stay
            },
            DetailHappening::Library(LibraryEvent::TrackDropped { playlist, track }) => if shows(
                *shown,
                playlist@,
            ) {
                final(tracks)@ == unheld(old(tracks)@, Some(track@)) && r == DetailStep::Redraw
            } else {
                final(tracks)@ == old(tracks)@ && r == DetailStep::Stay
            },
            DetailHappening::Library(LibraryEvent::PlaylistGone(_)) => final(tracks)@
                == old(tracks)@ && r == DetailStep::Stay,
            DetailHappening::TracksHidden(ids) => {
                &&& final(tracks)@ == unhidden(old(tracks)@, crate::feed::texts_view(ids@))
                &&& r == if final(tracks)@.len() != old(tracks)@.len() {
                    DetailStep::Redraw
                } else {
                    DetailStep::Stay
                }
            },
        },
{
    match happening {
        DetailHappening::SignedOut { ours } => {
            if ours && shown.is_some() {
                DetailStep::Clear
            } else {
                DetailStep::Stay
            }
        },
        DetailHappening::SignedIn { ours } => {
            if !ours {
                return DetailStep::Stay;
            }
            match (kind, shown) {
                (Some(kind), Some(id)) => DetailStep::Reopen { kind, id: id.clone() },
                _ => DetailStep::Stay,
            }
        },
        DetailHappening::Library(LibraryEvent::TrackAdded { playlist }) => {
            if showing(shown, &playlist) {
                DetailStep::Reload { id: playlist }
            } else {
                DetailStep::Stay
            }
        },
        DetailHappening::Library(LibraryEvent::TrackDropped { playlist, track }) => {
            if showing(shown, &playlist) {
                drop_track(tracks, &track);
                DetailStep::Redraw
            } else {
                DetailStep::Stay
            }
        },
        DetailHappening::Library(LibraryEvent::PlaylistGone(_)) => DetailStep::Stay,
        DetailHappening::TracksHidden(ids) => {
            if hide_tracks(tracks, &ids) {
                DetailStep::Redraw
            } else {
                DetailStep::Stay
            }
        },
    }
}

/// The first item of that id, if any.
pub open spec fn first_keyed<T: Keyed>(items: Seq<T>, key: Option<Seq<char>>) -> Option<T>
    decreases items.len(),
{
    if items.len() == 0 {
        None
    } else if items[0].key_spec() == key {
        Some(items[0])
    } else {
        first_keyed(items.drop_first(), key)
    }
}

/// The first item of that id among the items.
pub fn find_keyed<T: Keyed>(items: &Vec<T>, key: &Option<String>) -> (r: Option<T>)
    ensures
        r == first_keyed(items@, crate::track::text_of(*key)),
{
    let ghost k = crate::track::text_of(*key);
    let mut i: usize = 0;
    assert(items@.skip(0) =~= items@);
    while i < items.len()
        invariant
            i <= items@.len(),
            k == crate::track::text_of(*key),
            first_keyed(items@, k) == first_keyed(items@.skip(i as int), k),
        decreases items@.len() - i,
    {
        assert(items@.skip(i as int).drop_first() =~= items@.skip(i + 1));
        assert(items@.skip(i as int)[0] == items@[i as int]);
        if same_key(items[i].key(), key) {
            return Some(items[i].twin());
        }
        i = i + 1;
    }
    None
}

/// A first item of an id is one with that id.
pub proof fn lemma_first_keyed<T: Keyed>(items: Seq<T>, key: Option<Seq<char>>)
    ensures
        first_keyed(items, key) is Some <==> holds_key(items, key),
    decreases items.len(),
{
    if items.len() > 0 {
        lemma_first_keyed(items.drop_first(), key);
        if holds_key(items, key) && items[0].key_spec() != key {
            let j = choose|j: int| 0 <= j < items.len() && #[trigger] items[j].key_spec() == key;
            assert(items.drop_first()[j - 1] == items[j]);
        }
        if holds_key(items.drop_first(), key) {
            let j = choose|j: int|
                0 <= j < items.drop_first().len() && #[trigger] items.drop_first()[j].key_spec() == key;
            assert(items[j + 1] == items.drop_first()[j]);
        }
    }
}

/// Toggles an item in a list of saved items at once, before the provider answers: saves it,
/// first or last, when no item of its id is there, or else unsaves every item of its id.
/// Answers whether it is saved now, and the item of its id that was there, to put back should
/// the provider refuse.
pub fn toggle<T: Keyed>(items: &mut Vec<T>, item: T, first: bool) -> (r: (bool, Option<T>))
    ensures
        r.0 == !holds_key(old(items)@, item.key_spec()),
        r.1 == first_keyed(old(items)@, item.key_spec()),
        final(items)@ == held_spec(old(items)@, item, r.0, first),
{
    let key = owned_key(item.key());
    let previous = find_keyed(items, &key);
    proof {
        lemma_first_keyed(items@, item.key_spec());
    }
    let saved = previous.is_none();
    hold(items, item, saved, first);
    (saved, previous)
}

/// Puts back what a toggle changed, once the provider refused it: the item that was there
/// before is saved again, or the item saved at once is unsaved.
pub fn revert<T: Keyed>(items: &mut Vec<T>, item: T, previous: Option<T>, first: bool)
    ensures
        final(items)@ == match previous {
            Some(previous) => held_spec(old(items)@, previous, true, first),
            None => held_spec(old(items)@, item, false, first),
        },
{
    match previous {
        Some(previous) => hold(items, previous, true, first),
        None => hold(items, item, false, first),
    }
}

/// A save the provider refused leaves the list as it was.
pub proof fn lemma_refused_save_is_undone<T: Keyed>(items: Seq<T>, item: T, first: bool)
    requires
        !holds_key(items, item.key_spec()),
    ensures
        ({
            let toggled = held_spec(items, item, true, first);
            held_spec(toggled, item, false, first) == items
        }),
{
    lemma_unsave_undoes_save(items, item, first);
}


/// The parts whose failure fails a shelf as a whole: for a provider that lists all its tracks
/// as its library, the tracks and the albums; for any other, the playlists as well.
pub open spec fn fatal_spec(all_tracks: bool) -> Seq<LibraryPart> {
    if all_tracks {
        seq![LibraryPart::Tracks, LibraryPart::Albums]
    } else {
        seq![LibraryPart::Tracks, LibraryPart::Playlists, LibraryPart::Albums]
    }
}

/// The parts whose failure fails a shelf as a whole.
pub fn fatal_parts(all_tracks: bool) -> (r: Vec<LibraryPart>)
    ensures
        r@ == fatal_spec(all_tracks),
{
    let r = if all_tracks {
        vec![LibraryPart::Tracks, LibraryPart::Albums]
    } else {
        vec![LibraryPart::Tracks, LibraryPart::Playlists, LibraryPart::Albums]
    };
    assert(r@ =~= fatal_spec(all_tracks));
    r
}

/// Whether some problem is of `part`.
fn has_problem(problems: &Vec<Problem>, part: LibraryPart) -> (r: bool)
    ensures
        r == exists|j: int| 0 <= j < problems@.len() && #[trigger] problems@[j].part == part,
{
    let mut i: usize = 0;
    while i < problems.len()
        invariant
            i <= problems@.len(),
            forall|j: int| 0 <= j < i ==> #[trigger] problems@[j].part != part,
        decreases problems@.len() - i,
    {
        if problems[i].part == part {
            assert(problems@[i as int].part == part);
            return true;
        }
        i = i + 1;
    }
    false
}

/// One provider's shelf: its lists as they stand, its favorites when it keeps them apart from
/// its tracks, and the parts still awaited.
pub struct Shelf<P, A, R> {
    pub state: LibraryState<Track, P, A, R>,
    pub favorites: Option<Vec<Track>>,
    pub awaited: Vec<LibraryPart>,
}

impl<P, A, R> Shelf<P, A, R> {
    /// A shelf with nothing asked for.
    pub fn empty() -> (r: Self)
        ensures
            r.state is Empty,
            r.favorites is None,
            r.awaited@.len() == 0,
    {
        Shelf { state: LibraryState::Empty, favorites: None, awaited: Vec::new() }
    }

    /// A shelf whose four parts were just asked for. A provider that lists all its tracks as
    /// its library keeps its favorites apart, to be stocked when they come.
    pub fn loading(all_tracks: bool) -> (r: Self)
        ensures
            r.state is Loading,
            all_tracks ==> (r.favorites matches Some(held) && held@.len() == 0),
            !all_tracks ==> r.favorites is None,
            r.awaited@ == seq![
                LibraryPart::Tracks,
                LibraryPart::Playlists,
                LibraryPart::Albums,
                LibraryPart::Artists,
            ],
    {
        let favorites = if all_tracks {
            Some(Vec::new())
        } else {
            None
        };
        let awaited = vec![
            LibraryPart::Tracks,
            LibraryPart::Playlists,
            LibraryPart::Albums,
            LibraryPart::Artists,
        ];
        assert(awaited@ =~= seq![
            LibraryPart::Tracks,
            LibraryPart::Playlists,
            LibraryPart::Albums,
            LibraryPart::Artists,
        ]);
        Shelf { state: LibraryState::Loading, favorites, awaited }
    }

    /// Whether a part is still on its way: the whole shelf is, or the part is awaited.
    pub fn is_loading(&self, part: LibraryPart) -> (r: bool)
        ensures
            r == (self.state is Loading || self.awaited@.contains(part)),
    {
        if let LibraryState::Loading = self.state {
            return true;
        }
        let mut i: usize = 0;
        while i < self.awaited.len()
            invariant
                i <= self.awaited@.len(),
                forall|j: int| 0 <= j < i ==> self.awaited@[j] != part,
            decreases self.awaited@.len() - i,
        {
            if self.awaited[i] == part {
                return true;
            }
            i = i + 1;
        }
        false
    }

    /// Whether a part failed to load.
    pub fn failed(&self, part: LibraryPart) -> (r: bool)
        ensures
            r == match self.state {
                LibraryState::Ready { problems, .. } => exists|j: int|
                    0 <= j < problems@.len() && #[trigger] problems@[j].part == part,
                _ => false,
            },
    {
        match &self.state {
            LibraryState::Ready { problems, .. } => has_problem(problems, part),
            _ => false,
        }
    }

    /// The favorites came: a failure leaves none.
    pub fn stock(&mut self, loaded: Result<Vec<Track>, String>)
        ensures
            final(self).favorites matches Some(held) && held@ == (match loaded {
                Ok(tracks) => tracks@,
                Err(_) => Seq::<Track>::empty(),
            }),
            final(self).state == old(self).state,
            final(self).awaited == old(self).awaited,
    {
        let held = match loaded {
            Ok(tracks) => tracks,
            Err(_) => Vec::new(),
        };
        self.favorites = Some(held);
    }

    /// A part landed, for a provider that does or does not list all its tracks as its library.
    pub fn land(&mut self, landed: Landed<Track, P, A, R>, all_tracks: bool)
        ensures
            final(self).awaited@ == still_awaited(old(self).awaited@, part_of(landed)),
            final(self).favorites == old(self).favorites,
            ({
                let lists = landed_in(lists_of(old(self).state), landed);
                let fatal = fatal_spec(all_tracks);
                if final(self).awaited@.len() == 0 && all_failed(lists.problems, fatal) {
                    shelf_of(final(self).state) == Err::<Lists<Track, P, A, R>, Seq<char>>(
                        reasons(lists.problems, fatal),
                    )
                } else {
                    shelf_of(final(self).state) == Ok::<Lists<Track, P, A, R>, Seq<char>>(lists)
                }
            }),
    {
        let fatal = fatal_parts(all_tracks);
        place(&mut self.state, &mut self.awaited, landed, fatal.as_slice());
    }
}

} // verus!
