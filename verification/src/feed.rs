//! The home page's feed as the page keeps it: the tiles it draws, the shelves without blank
//! tiles, Quick picks made of what was played lately and then the provider's picks, and how a
//! new lot of the feed lands while the page is in view, without changing what is drawn.

use vstd::prelude::*;

use crate::alike::{all_alike, copy_all, lemma_views_push, starts, starts_with, views_of, Alike};
use crate::home::{longest, turn, woven_spec};
use crate::track::{same_optional, same_text, Track, TrackView};

verus! {

/// How many rows Quick picks hold at most.
pub const PICKS_LIMIT: usize = 30;

/// An album, playlist, artist or genre as the page tells tiles apart: its id and its name.
#[derive(Clone, Debug, PartialEq, Eq)]
pub struct Tile {
    pub id: String,
    pub name: String,
}

/// A tile as a plain value.
pub struct TileView {
    pub id: Seq<char>,
    pub name: Seq<char>,
}

impl View for Tile {
    type V = TileView;

    open spec fn view(&self) -> TileView {
        TileView { id: self.id@, name: self.name@ }
    }
}

impl Alike for Tile {
    fn alike(&self, other: &Self) -> (r: bool) {
        same_text(&self.id, &other.id) && same_text(&self.name, &other.name)
    }

    fn duplicate(&self) -> (r: Self) {
        Tile { id: self.id.clone(), name: self.name.clone() }
    }
}

/// One tile of the home page.
#[derive(Clone, Debug, PartialEq, Eq)]
pub enum GenreItem {
    Track(Track),
    Album(Tile),
    Playlist(Tile),
    Artist(Tile),
    Genre(Tile),
}

/// A tile of the home page as a plain value.
pub enum ItemView {
    Track(TrackView),
    Album(TileView),
    Playlist(TileView),
    Artist(TileView),
    Genre(TileView),
}

impl View for GenreItem {
    type V = ItemView;

    open spec fn view(&self) -> ItemView {
        match self {
            GenreItem::Track(track) => ItemView::Track(track@),
            GenreItem::Album(tile) => ItemView::Album(tile@),
            GenreItem::Playlist(tile) => ItemView::Playlist(tile@),
            GenreItem::Artist(tile) => ItemView::Artist(tile@),
            GenreItem::Genre(tile) => ItemView::Genre(tile@),
        }
    }
}

impl Alike for GenreItem {
    fn alike(&self, other: &Self) -> (r: bool) {
        match (self, other) {
            (GenreItem::Track(left), GenreItem::Track(right)) => left.alike(right),
            (GenreItem::Album(left), GenreItem::Album(right)) => left.alike(right),
            (GenreItem::Playlist(left), GenreItem::Playlist(right)) => left.alike(right),
            (GenreItem::Artist(left), GenreItem::Artist(right)) => left.alike(right),
            (GenreItem::Genre(left), GenreItem::Genre(right)) => left.alike(right),
            _ => false,
        }
    }

    fn duplicate(&self) -> (r: Self) {
        match self {
            GenreItem::Track(track) => GenreItem::Track(track.duplicate()),
            GenreItem::Album(tile) => GenreItem::Album(tile.duplicate()),
            GenreItem::Playlist(tile) => GenreItem::Playlist(tile.duplicate()),
            GenreItem::Artist(tile) => GenreItem::Artist(tile.duplicate()),
            GenreItem::Genre(tile) => GenreItem::Genre(tile.duplicate()),
        }
    }
}

/// A shelf of the home page: its title, its tiles, and the provider it came from.
#[derive(Clone, Debug, PartialEq, Eq)]
pub struct GenreSection {
    pub title: String,
    pub items: Vec<GenreItem>,
    pub provider: Option<String>,
}

/// A shelf as a plain value.
pub struct SectionView {
    pub title: Seq<char>,
    pub items: Seq<ItemView>,
    pub provider: Option<Seq<char>>,
}

impl View for GenreSection {
    type V = SectionView;

    open spec fn view(&self) -> SectionView {
        SectionView {
            title: self.title@,
            items: views_of(self.items@),
            provider: crate::track::text_of(self.provider),
        }
    }
}

impl Alike for GenreSection {
    fn alike(&self, other: &Self) -> (r: bool) {
        same_text(&self.title, &other.title) && all_alike(&self.items, &other.items)
            && same_optional(&self.provider, &other.provider)
    }

    fn duplicate(&self) -> (r: Self) {
        GenreSection {
            title: self.title.clone(),
            items: copy_all(&self.items),
            provider: crate::track::copy_optional(&self.provider),
        }
    }
}

/// A playlist tile without a name, which the page does not draw until the provider names it.
pub open spec fn blank_spec(item: ItemView) -> bool {
    item matches ItemView::Playlist(tile) && tile.name.len() == 0
}

/// Whether a tile is a playlist without a name.
pub fn blank(item: &GenreItem) -> (r: bool)
    ensures
        r == blank_spec(item@),
{
    match item {
        GenreItem::Playlist(tile) => tile.name.as_str().is_empty(),
        _ => false,
    }
}

/// The tiles that are not blank, in order.
pub open spec fn kept_items(items: Seq<ItemView>) -> Seq<ItemView>
    decreases items.len(),
{
    if items.len() == 0 {
        Seq::empty()
    } else {
        let before = kept_items(items.drop_last());
        if blank_spec(items.last()) {
            before
        } else {
            before.push(items.last())
        }
    }
}

/// The shelves as the page draws them: without blank tiles, and without the shelves that are
/// left with none.
pub open spec fn pruned_spec(sections: Seq<SectionView>) -> Seq<SectionView>
    decreases sections.len(),
{
    if sections.len() == 0 {
        Seq::empty()
    } else {
        let before = pruned_spec(sections.drop_last());
        let last = sections.last();
        let items = kept_items(last.items);
        if items.len() > 0 {
            before.push(SectionView { items, ..last })
        } else {
            before
        }
    }
}

/// Copies of the tiles that are not blank, in order.
fn kept(items: &Vec<GenreItem>) -> (r: Vec<GenreItem>)
    ensures
        views_of(r@) == kept_items(views_of(items@)),
{
    let ghost all = views_of(items@);
    let mut out: Vec<GenreItem> = Vec::new();
    let mut i: usize = 0;
    assert(all.subrange(0, 0) =~= Seq::<ItemView>::empty());
    assert(views_of(out@) =~= Seq::<ItemView>::empty());
    while i < items.len()
        invariant
            i <= items@.len(),
            all == views_of(items@),
            views_of(out@) == kept_items(all.subrange(0, i as int)),
        decreases items@.len() - i,
    {
        proof {
            assert(all.subrange(0, i + 1).drop_last() =~= all.subrange(0, i as int));
        }
        if !blank(&items[i]) {
            let ghost before = out@;
            out.push(items[i].duplicate());
            proof {
                lemma_views_push(before, out@.last());
                assert(before.push(out@.last()) =~= out@);
            }
        }
        i = i + 1;
    }
    assert(all.subrange(0, i as int) =~= all);
    out
}

/// The shelves as the page draws them: blank tiles dropped, and the shelves left with none.
pub fn pruned(sections: &Vec<GenreSection>) -> (r: Vec<GenreSection>)
    ensures
        views_of(r@) == pruned_spec(views_of(sections@)),
{
    let ghost all = views_of(sections@);
    let mut out: Vec<GenreSection> = Vec::new();
    let mut i: usize = 0;
    assert(views_of(out@) =~= pruned_spec(all.subrange(0, 0)));
    while i < sections.len()
        invariant
            i <= sections@.len(),
            all == views_of(sections@),
            views_of(out@) == pruned_spec(all.subrange(0, i as int)),
        decreases sections@.len() - i,
    {
        proof {
            assert(all.subrange(0, i + 1).drop_last() =~= all.subrange(0, i as int));
        }
        let section = &sections[i];
        let items = kept(&section.items);
        if items.len() > 0 {
            let ghost before = out@;
            out.push(
                GenreSection {
                    title: section.title.clone(),
                    items,
                    provider: crate::track::copy_optional(&section.provider),
                },
            );
            proof {
                lemma_views_push(before, out@.last());
                assert(before.push(out@.last()) =~= out@);
            }
        }
        i = i + 1;
    }
    assert(all.subrange(0, i as int) =~= all);
    out
}

/// Dropping blank tiles twice drops nothing more.
pub proof fn lemma_kept_twice(items: Seq<ItemView>)
    ensures
        kept_items(kept_items(items)) == kept_items(items),
    decreases items.len(),
{
    if items.len() > 0 {
        lemma_kept_twice(items.drop_last());
        let before = kept_items(items.drop_last());
        if !blank_spec(items.last()) {
            assert(before.push(items.last()).drop_last() =~= before);
        }
    }
}

/// Pruning shelves that were pruned already changes nothing: what the page draws is drawn as
/// it is.
pub proof fn lemma_pruned_twice(sections: Seq<SectionView>)
    ensures
        pruned_spec(pruned_spec(sections)) == pruned_spec(sections),
    decreases sections.len(),
{
    if sections.len() > 0 {
        lemma_pruned_twice(sections.drop_last());
        let before = pruned_spec(sections.drop_last());
        let last = sections.last();
        let items = kept_items(last.items);
        if items.len() > 0 {
            let shelf = SectionView { items, ..last };
            lemma_kept_twice(last.items);
            assert(before.push(shelf).drop_last() =~= before);
            assert(SectionView { items: kept_items(shelf.items), ..shelf } == shelf);
        }
    }
}


/// The id of a tile that is a track, if it has one.
pub open spec fn track_id_of(item: ItemView) -> Option<Seq<char>> {
    match item {
        ItemView::Track(track) => track.id,
        _ => None,
    }
}

/// Whether a track of id `id` is among the tiles.
pub open spec fn plays(items: Seq<ItemView>, id: Seq<char>) -> bool {
    exists|j: int| 0 <= j < items.len() && #[trigger] track_id_of(items[j]) == Some(id)
}

/// The picks that are not among the tiles played lately: those without an id, and those
/// whose id no played track has, in order.
pub open spec fn fresh(picks: Seq<TrackView>, played: Seq<ItemView>) -> Seq<TrackView>
    decreases picks.len(),
{
    if picks.len() == 0 {
        Seq::empty()
    } else {
        let before = fresh(picks.drop_last(), played);
        let last = picks.last();
        if last.id matches Some(id) && plays(played, id) {
            before
        } else {
            before.push(last)
        }
    }
}

/// Tracks as tiles.
pub open spec fn as_items(tracks: Seq<TrackView>) -> Seq<ItemView> {
    tracks.map_values(|track: TrackView| ItemView::Track(track))
}

/// The first `n` of a sequence, or all of it when it is shorter.
pub open spec fn first<T>(items: Seq<T>, n: int) -> Seq<T> {
    if items.len() <= n {
        items
    } else {
        items.take(n)
    }
}

/// Quick picks as the page draws them: what was played lately, then the picks not among it,
/// up to `PICKS_LIMIT` rows in all.
pub open spec fn merge_spec(recent: Seq<ItemView>, picks: Seq<TrackView>) -> Seq<ItemView> {
    let room = if recent.len() < PICKS_LIMIT {
        PICKS_LIMIT - recent.len()
    } else {
        0
    };
    first(recent + as_items(first(fresh(picks, recent), room)), PICKS_LIMIT as int)
}

/// Whether a track of id `id` is among the tiles.
fn played(items: &Vec<GenreItem>, id: &String) -> (r: bool)
    ensures
        r == plays(views_of(items@), id@),
{
    let ghost all = views_of(items@);
    let mut i: usize = 0;
    while i < items.len()
        invariant
            i <= items@.len(),
            all == views_of(items@),
            forall|j: int| 0 <= j < i ==> #[trigger] track_id_of(all[j]) != Some(id@),
        decreases items@.len() - i,
    {
        if let GenreItem::Track(track) = &items[i] {
            if let Some(known) = &track.id {
                if same_text(known, id) {
                    assert(track_id_of(all[i as int]) == Some(id@));
                    return true;
                }
            }
        }
        assert(track_id_of(all[i as int]) != Some(id@));
        i = i + 1;
    }
    false
}

/// The picks kept from a first part of the picks are the first of those kept from all.
pub proof fn lemma_fresh_prefix(picks: Seq<TrackView>, played: Seq<ItemView>, i: int)
    requires
        0 <= i <= picks.len(),
    ensures
        fresh(picks.subrange(0, i), played).len() <= fresh(picks, played).len(),
        fresh(picks.subrange(0, i), played) == fresh(picks, played).take(
            fresh(picks.subrange(0, i), played).len() as int,
        ),
    decreases picks.len(),
{
    if i == picks.len() {
        assert(picks.subrange(0, i) =~= picks);
        assert(fresh(picks, played).take(fresh(picks, played).len() as int) =~= fresh(
            picks,
            played,
        ));
    } else {
        let rest = picks.drop_last();
        assert(picks.subrange(0, i) =~= rest.subrange(0, i));
        lemma_fresh_prefix(rest, played, i);
        let part = fresh(rest.subrange(0, i), played);
        let whole = fresh(rest, played);
        if !(picks.last().id matches Some(id) && plays(played, id)) {
            assert(whole.push(picks.last()).take(part.len() as int) =~= whole.take(
                part.len() as int,
            ));
        }
    }
}

/// Quick picks: what was played lately, then the picks not among it, up to `PICKS_LIMIT` rows.
pub fn merge(recent: &Vec<GenreItem>, picks: &Vec<Track>) -> (r: Vec<GenreItem>)
    ensures
        views_of(r@) == merge_spec(views_of(recent@), views_of(picks@)),
{
    let ghost rv = views_of(recent@);
    let ghost pv = views_of(picks@);
    let mut out = copy_all(recent);
    let room: usize = if recent.len() < PICKS_LIMIT {
        PICKS_LIMIT - recent.len()
    } else {
        0
    };
    let mut taken: usize = 0;
    let mut i: usize = 0;
    assert(pv.subrange(0, 0) =~= Seq::<TrackView>::empty());
    assert(as_items(Seq::<TrackView>::empty()) =~= Seq::<ItemView>::empty());
    assert(views_of(out@) =~= rv + as_items(fresh(pv.subrange(0, 0), rv)));
    while i < picks.len() && taken < room
        invariant
            i <= picks@.len(),
            taken <= room,
            rv == views_of(recent@),
            pv == views_of(picks@),
            room == (if rv.len() < PICKS_LIMIT {
                PICKS_LIMIT - rv.len()
            } else {
                0
            }),
            fresh(pv.subrange(0, i as int), rv).len() == taken,
            views_of(out@) == rv + as_items(fresh(pv.subrange(0, i as int), rv)),
        decreases picks@.len() - i,
    {
        proof {
            assert(pv.subrange(0, i + 1).drop_last() =~= pv.subrange(0, i as int));
            assert(pv.subrange(0, i + 1).last() == picks@[i as int]@);
        }
        let pick = &picks[i];
        let keep = match &pick.id {
            None => true,
            Some(id) => !played(recent, id),
        };
        if keep {
            let ghost before = out@;
            out.push(GenreItem::Track(pick.copy()));
            taken = taken + 1;
            proof {
                lemma_views_push(before, out@.last());
                let f = fresh(pv.subrange(0, i as int), rv);
                assert(as_items(f.push(pick@)) =~= as_items(f).push(ItemView::Track(pick@)));
                assert(views_of(out@) =~= rv + as_items(f.push(pick@)));
            }
        }
        i = i + 1;
    }
    proof {
        let f = fresh(pv.subrange(0, i as int), rv);
        let all = fresh(pv, rv);
        lemma_fresh_prefix(pv, rv, i as int);
        if i == picks.len() {
            assert(pv.subrange(0, i as int) =~= pv);
        }
        assert(first(all, room as int) =~= f);
    }
    if out.len() > PICKS_LIMIT {
        out.truncate(PICKS_LIMIT);
    }
    proof {
        let f = fresh(pv.subrange(0, i as int), rv);
        let joined = rv + as_items(f);
        assert(views_of(out@) =~= first(joined, PICKS_LIMIT as int));
    }
    out
}

/// Quick picks hold at most `PICKS_LIMIT` rows, and begin with what was played lately, as much
/// of it as fits.
pub proof fn lemma_quick_picks_begin_with_the_recent(recent: Seq<ItemView>, picks: Seq<TrackView>)
    ensures
        merge_spec(recent, picks).len() <= PICKS_LIMIT,
        merge_spec(recent, picks).take(first(recent, PICKS_LIMIT as int).len() as int) == first(
            recent,
            PICKS_LIMIT as int,
        ),
{
    let room = if recent.len() < PICKS_LIMIT {
        PICKS_LIMIT - recent.len()
    } else {
        0
    };
    let joined = recent + as_items(first(fresh(picks, recent), room));
    let n = first(recent, PICKS_LIMIT as int).len() as int;
    assert(merge_spec(recent, picks).take(n) =~= first(recent, PICKS_LIMIT as int));
}


/// What `fresh` keeps is among the picks, and no kept pick with an id is one played lately.
proof fn lemma_fresh_unplayed(picks: Seq<TrackView>, played: Seq<ItemView>)
    ensures
        forall|k: int|
            0 <= k < fresh(picks, played).len() ==> picks.contains(#[trigger] fresh(picks, played)[k])
                && (fresh(picks, played)[k].id matches Some(id) ==> !plays(played, id)),
    decreases picks.len(),
{
    if picks.len() > 0 {
        let rest = picks.drop_last();
        lemma_fresh_unplayed(rest, played);
        let before = fresh(rest, played);
        assert forall|k: int|
            0 <= k < fresh(picks, played).len() implies picks.contains(
            #[trigger] fresh(picks, played)[k],
        ) && (fresh(picks, played)[k].id matches Some(id) ==> !plays(played, id)) by {
            if k < before.len() {
                assert(fresh(picks, played)[k] == before[k]);
                let j = choose|j: int| 0 <= j < rest.len() && rest[j] == before[k];
                assert(picks[j] == rest[j]);
            } else {
                assert(fresh(picks, played)[k] == picks.last());
                assert(picks[picks.len() - 1] == picks.last());
            }
        }
    }
}

/// Quick picks skip what was played lately: every row after the tiles played lately is one of
/// the picks, and none is a track whose id a track tile played lately has, at whatever place
/// among them.
pub proof fn lemma_quick_picks_skip_what_played(recent: Seq<ItemView>, picks: Seq<TrackView>)
    ensures
        forall|k: int|
            recent.len() <= k < merge_spec(recent, picks).len() ==> {
                &&& #[trigger] merge_spec(recent, picks)[k] matches ItemView::Track(pick)
                &&& picks.contains(pick)
                &&& pick.id matches Some(id) ==> forall|j: int|
                    0 <= j < recent.len() ==> !(#[trigger] recent[j] matches ItemView::Track(seen)
                        && seen.id == Some(id))
            },
{
    let merged = merge_spec(recent, picks);
    lemma_fresh_unplayed(picks, recent);
    if recent.len() < PICKS_LIMIT {
        let room = PICKS_LIMIT - recent.len();
        let kept = fresh(picks, recent);
        let f = first(kept, room as int);
        let joined = recent + as_items(f);
        assert(joined.len() <= PICKS_LIMIT);
        assert(merged == joined);
        assert forall|k: int| recent.len() <= k < merged.len() implies {
            &&& #[trigger] merged[k] matches ItemView::Track(pick)
            &&& picks.contains(pick)
            &&& pick.id matches Some(id) ==> forall|j: int|
                0 <= j < recent.len() ==> !(#[trigger] recent[j] matches ItemView::Track(seen)
                    && seen.id == Some(id))
        } by {
            let i = k - recent.len();
            assert(merged[k] == ItemView::Track(f[i]));
            assert(f[i] == kept[i]);
            if let Some(id) = kept[i].id {
                assert(!plays(recent, id));
                assert forall|j: int| 0 <= j < recent.len() implies !(
                #[trigger] recent[j] matches ItemView::Track(seen) && seen.id == Some(id)) by {
                    assert(track_id_of(recent[j]) != Some(id));
                }
            }
        }
    } else {
        assert(merged.len() <= PICKS_LIMIT);
    }
}

/// `fresh` keeps every pick that was not played lately.
proof fn lemma_fresh_keeps_unplayed(picks: Seq<TrackView>, played: Seq<ItemView>, i: int)
    requires
        0 <= i < picks.len(),
        !(picks[i].id matches Some(id) && plays(played, id)),
    ensures
        fresh(picks, played).contains(picks[i]),
    decreases picks.len(),
{
    let rest = picks.drop_last();
    let before = fresh(rest, played);
    if i < picks.len() - 1 {
        assert(rest[i] == picks[i]);
        lemma_fresh_keeps_unplayed(rest, played, i);
        let j = choose|j: int| 0 <= j < before.len() && before[j] == picks[i];
        assert(fresh(picks, played)[j] == picks[i]);
    } else {
        assert(fresh(picks, played) == before.push(picks.last()));
        assert(fresh(picks, played)[before.len() as int] == picks[i]);
    }
}

/// Quick picks leave out no pick that was not played lately while there is room: when fewer
/// than `PICKS_LIMIT` rows show, every pick that has no id, or whose id no track tile played
/// lately has, is among them.
pub proof fn lemma_quick_picks_keep_the_unplayed(recent: Seq<ItemView>, picks: Seq<TrackView>)
    ensures
        merge_spec(recent, picks).len() < PICKS_LIMIT ==> forall|i: int|
            0 <= i < picks.len() && !(picks[i].id matches Some(id) && exists|j: int|
                0 <= j < recent.len() && (#[trigger] recent[j] matches ItemView::Track(seen)
                    && seen.id == Some(id))) ==> merge_spec(recent, picks).contains(
                ItemView::Track(#[trigger] picks[i]),
            ),
{
    let merged = merge_spec(recent, picks);
    if merged.len() < PICKS_LIMIT {
        let room = if recent.len() < PICKS_LIMIT {
            PICKS_LIMIT - recent.len()
        } else {
            0
        };
        let kept = fresh(picks, recent);
        let f = first(kept, room as int);
        let joined = recent + as_items(f);
        assert(merged == joined);
        assert(f == kept);
        assert forall|i: int|
            0 <= i < picks.len() && !(picks[i].id matches Some(id) && exists|j: int|
                0 <= j < recent.len() && (#[trigger] recent[j] matches ItemView::Track(seen)
                    && seen.id == Some(id))) implies merged.contains(
            ItemView::Track(#[trigger] picks[i]),
        ) by {
            if let Some(id) = picks[i].id {
                if plays(recent, id) {
                    let j = choose|j: int|
                        0 <= j < recent.len() && #[trigger] track_id_of(recent[j]) == Some(id);
                    assert(recent[j] matches ItemView::Track(seen) && seen.id == Some(id));
                }
            }
            lemma_fresh_keeps_unplayed(picks, recent, i);
            let k = choose|k: int| 0 <= k < kept.len() && kept[k] == picks[i];
            assert(merged[recent.len() + k] == ItemView::Track(picks[i]));
        }
    }
}

/// The lanes as sequences of plain values.
pub open spec fn lane_views<T: View>(lanes: Seq<Vec<T>>) -> Seq<Seq<T::V>> {
    lanes.map_values(|lane: Vec<T>| views_of(lane@))
}

/// The items of all lanes woven into one row, in turns.
pub open spec fn weave<T>(lanes: Seq<Seq<T>>) -> Seq<T> {
    woven_spec(lanes, 0, longest(lanes))
}

/// Copies of the items of all lanes woven into one row: the first item of each lane in turn,
/// then the second of each, and so on.
pub fn woven_copies<T: Alike>(lanes: &Vec<Vec<T>>) -> (r: Vec<T>)
    ensures
        views_of(r@) == weave(lane_views(lanes@)),
{
    let ghost all = lane_views(lanes@);
    let mut rounds: usize = 0;
    let mut i: usize = 0;
    while i < lanes.len()
        invariant
            i <= lanes@.len(),
            all == lane_views(lanes@),
            rounds == longest(all.subrange(0, i as int)),
        decreases lanes@.len() - i,
    {
        assert(all.subrange(0, i + 1).drop_last() =~= all.subrange(0, i as int));
        if lanes[i].len() > rounds {
            rounds = lanes[i].len();
        }
        i = i + 1;
    }
    assert(all.subrange(0, i as int) =~= all);
    let mut out: Vec<T> = Vec::new();
    let mut round: usize = 0;
    assert(views_of(out@) =~= Seq::<T::V>::empty());
    while round < rounds
        invariant
            round <= rounds,
            rounds == longest(all),
            all == lane_views(lanes@),
            woven_spec(all, 0, rounds as int) == views_of(out@) + woven_spec(
                all,
                round as int,
                rounds as int,
            ),
        decreases rounds - round,
    {
        let ghost before = views_of(out@);
        let mut k: usize = 0;
        assert(turn(all.subrange(0, 0), round as int) =~= Seq::<T::V>::empty());
        assert(views_of(out@) =~= before + turn(all.subrange(0, 0), round as int));
        while k < lanes.len()
            invariant
                k <= lanes@.len(),
                all == lane_views(lanes@),
                views_of(out@) == before + turn(all.subrange(0, k as int), round as int),
            decreases lanes@.len() - k,
        {
            assert(all.subrange(0, k + 1).drop_last() =~= all.subrange(0, k as int));
            assert(all.subrange(0, k + 1).last() == views_of(lanes@[k as int]@));
            if round < lanes[k].len() {
                let ghost was = out@;
                out.push(lanes[k][round].duplicate());
                proof {
                    lemma_views_push(was, out@.last());
                }
            }
            k = k + 1;
            assert(views_of(out@) =~= before + turn(all.subrange(0, k as int), round as int));
        }
        assert(all.subrange(0, k as int) =~= all);
        round = round + 1;
        assert(views_of(out@) + woven_spec(all, round as int, rounds as int) =~= before
            + woven_spec(all, round - 1, rounds as int));
    }
    assert(views_of(out@) =~= views_of(out@) + woven_spec(all, round as int, rounds as int));
    out
}

/// The shelves credited to `provider`.
pub open spec fn credited_spec(provider: Seq<char>, sections: Seq<SectionView>) -> Seq<SectionView> {
    sections.map_values(|section: SectionView| SectionView { provider: Some(provider), ..section })
}

/// Copies of the shelves, each credited to `provider`.
pub fn credited(provider: &str, sections: &Vec<GenreSection>) -> (r: Vec<GenreSection>)
    ensures
        views_of(r@) == credited_spec(provider@, views_of(sections@)),
{
    let ghost all = views_of(sections@);
    let mut out: Vec<GenreSection> = Vec::new();
    let mut i: usize = 0;
    while i < sections.len()
        invariant
            i <= sections@.len(),
            all == views_of(sections@),
            views_of(out@) == credited_spec(provider@, all.subrange(0, i as int)),
        decreases sections@.len() - i,
    {
        let ghost was = out@;
        let section = &sections[i];
        out.push(
            GenreSection {
                title: section.title.clone(),
                items: copy_all(&section.items),
                provider: Some(provider.to_owned()),
            },
        );
        proof {
            lemma_views_push(was, out@.last());
            assert(views_of(out@) =~= credited_spec(provider@, all.subrange(0, i + 1)));
        }
        i = i + 1;
    }
    assert(all.subrange(0, i as int) =~= all);
    out
}

/// One lot of the home feed: what was played lately, the provider's Quick picks if it has
/// any, and the shelves.
pub struct HomeFeed {
    pub listen_again: Vec<GenreItem>,
    pub quick_picks: Option<Vec<Track>>,
    pub sections: Vec<GenreSection>,
}

/// A lot of the feed as a plain value.
pub struct FeedView {
    pub listen_again: Seq<ItemView>,
    pub quick_picks: Option<Seq<TrackView>>,
    pub sections: Seq<SectionView>,
}

/// Optional tracks as plain values.
pub open spec fn picks_view(picks: Option<Vec<Track>>) -> Option<Seq<TrackView>> {
    match picks {
        Some(picks) => Some(views_of(picks@)),
        None => None,
    }
}

impl View for HomeFeed {
    type V = FeedView;

    open spec fn view(&self) -> FeedView {
        FeedView {
            listen_again: views_of(self.listen_again@),
            quick_picks: picks_view(self.quick_picks),
            sections: views_of(self.sections@),
        }
    }
}

/// An optional lot as a plain value.
pub open spec fn feed_view(feed: Option<HomeFeed>) -> Option<FeedView> {
    match feed {
        Some(feed) => Some(feed@),
        None => None,
    }
}

/// The first shelf of that title among those drawn.
pub open spec fn first_titled(shown: Seq<SectionView>, title: Seq<char>) -> Option<SectionView>
    decreases shown.len(),
{
    if shown.len() == 0 {
        None
    } else if shown[0].title == title {
        Some(shown[0])
    } else {
        first_titled(shown.drop_first(), title)
    }
}

/// Whether a shelf of a new lot would change the shelf of its title already drawn.
pub open spec fn held_one(section: SectionView, shown: Seq<SectionView>) -> bool {
    first_titled(shown, section.title) matches Some(drawn) && drawn.items != section.items
}

/// A shelf of a new lot as it lands in view: the shelf drawn under its title when the lot
/// would change its tiles, the lot's own otherwise.
pub open spec fn landed_one(section: SectionView, shown: Seq<SectionView>) -> SectionView {
    match first_titled(shown, section.title) {
        Some(drawn) => if drawn.items != section.items {
            drawn
        } else {
            section
        },
        None => section,
    }
}

/// The shelves of a new lot as they land in view.
pub open spec fn landed_sections(lot: Seq<SectionView>, shown: Seq<SectionView>) -> Seq<SectionView> {
    lot.map_values(|section: SectionView| landed_one(section, shown))
}

/// Whether some shelf of a new lot was held back to keep a shelf drawn as it is.
pub open spec fn any_held(lot: Seq<SectionView>, shown: Seq<SectionView>) -> bool {
    exists|k: int| 0 <= k < lot.len() && #[trigger] held_one(lot[k], shown)
}

/// Whether some shelf holds a blank tile.
pub open spec fn has_blank(sections: Seq<SectionView>) -> bool {
    exists|k: int, j: int|
        0 <= k < sections.len() && 0 <= j < sections[k].items.len() && #[trigger] blank_spec(
            #[trigger] sections[k].items[j],
        )
}

/// A shelf the page can draw as it is: it has tiles, and none is blank.
pub open spec fn clean(section: SectionView) -> bool {
    section.items.len() > 0 && kept_items(section.items) == section.items
}

/// Whether every shelf can be drawn as it is.
pub open spec fn all_clean(sections: Seq<SectionView>) -> bool {
    forall|k: int| 0 <= k < sections.len() ==> #[trigger] clean(sections[k])
}

/// How long the page waits before asking for the feed again, in milliseconds, after this many
/// fetches in a row brought nothing: three seconds, then ten, then thirty, then no more.
pub open spec fn retry_spec(failures: int) -> Option<u64> {
    if failures == 0 {
        Some(3000)
    } else if failures == 1 {
        Some(10_000)
    } else if failures == 2 {
        Some(30_000)
    } else {
        None
    }
}

/// Tiles without a blank one are kept whole.
pub proof fn lemma_kept_clean(items: Seq<ItemView>)
    ensures
        forall|j: int| 0 <= j < kept_items(items).len() ==> !blank_spec(#[trigger] kept_items(items)[j]),
        kept_items(items).len() <= items.len(),
    decreases items.len(),
{
    if items.len() > 0 {
        lemma_kept_clean(items.drop_last());
    }
}

/// Every shelf of pruned shelves can be drawn as it is.
pub proof fn lemma_pruned_clean(sections: Seq<SectionView>)
    ensures
        all_clean(pruned_spec(sections)),
    decreases sections.len(),
{
    if sections.len() > 0 {
        lemma_pruned_clean(sections.drop_last());
        let last = sections.last();
        let items = kept_items(last.items);
        if items.len() > 0 {
            lemma_kept_twice(last.items);
            let before = pruned_spec(sections.drop_last());
            let shelf = SectionView { items, ..last };
            assert forall|k: int| 0 <= k < before.push(shelf).len() implies #[trigger] clean(
                before.push(shelf)[k],
            ) by {
                if k < before.len() {
                    assert(before.push(shelf)[k] == before[k]);
                }
            }
        }
    }
}

/// Shelves that can all be drawn as they are come out of pruning unchanged.
pub proof fn lemma_clean_pruned(sections: Seq<SectionView>)
    requires
        all_clean(sections),
    ensures
        pruned_spec(sections) == sections,
    decreases sections.len(),
{
    if sections.len() > 0 {
        let rest = sections.drop_last();
        assert forall|k: int| 0 <= k < rest.len() implies #[trigger] clean(rest[k]) by {
            assert(rest[k] == sections[k]);
        }
        lemma_clean_pruned(rest);
        let last = sections.last();
        assert(clean(sections[sections.len() - 1]));
        assert(SectionView { items: kept_items(last.items), ..last } == last);
        assert(rest.push(last) =~= sections);
    }
}

/// The first shelf of a title among shelves that can be drawn as they are can be too.
pub proof fn lemma_first_titled_clean(shown: Seq<SectionView>, title: Seq<char>)
    requires
        all_clean(shown),
    ensures
        first_titled(shown, title) matches Some(drawn) ==> clean(drawn) && drawn.title == title,
    decreases shown.len(),
{
    if shown.len() > 0 && shown[0].title != title {
        let rest = shown.drop_first();
        assert forall|k: int| 0 <= k < rest.len() implies #[trigger] clean(rest[k]) by {
            assert(rest[k] == shown[k + 1]);
        }
        lemma_first_titled_clean(rest, title);
    } else if shown.len() > 0 {
        assert(clean(shown[0]));
    }
}

/// A new lot lands in view as shelves that can be drawn as they are, none with a blank tile.
pub proof fn lemma_landed_clean(lot: Seq<SectionView>, shown: Seq<SectionView>)
    requires
        all_clean(lot),
        all_clean(shown),
    ensures
        all_clean(landed_sections(lot, shown)),
        !has_blank(landed_sections(lot, shown)),
        pruned_spec(landed_sections(lot, shown)) == landed_sections(lot, shown),
{
    let landed = landed_sections(lot, shown);
    assert forall|k: int| 0 <= k < landed.len() implies #[trigger] clean(landed[k]) by {
        lemma_first_titled_clean(shown, lot[k].title);
        assert(clean(lot[k]));
    }
    assert forall|k: int, j: int|
        0 <= k < landed.len() && 0 <= j < landed[k].items.len() implies !#[trigger] blank_spec(
        #[trigger] landed[k].items[j],
    ) by {
        assert(clean(landed[k]));
        lemma_kept_clean(landed[k].items);
    }
    lemma_clean_pruned(landed);
}

/// The feeds of the providers asked, as plain values: the slugs in provider order, and each
/// provider's feed so far, by slug.
pub struct LanesView {
    pub order: Seq<Seq<char>>,
    pub feeds: Seq<(Seq<char>, FeedView)>,
}

/// The feed of `slug` so far, if one came.
pub open spec fn feed_of(feeds: Seq<(Seq<char>, FeedView)>, slug: Seq<char>) -> Option<FeedView>
    decreases feeds.len(),
{
    if feeds.len() == 0 {
        None
    } else if feeds[0].0 == slug {
        Some(feeds[0].1)
    } else {
        feed_of(feeds.drop_first(), slug)
    }
}

/// The feeds without the one of `slug`.
pub open spec fn without_slug(feeds: Seq<(Seq<char>, FeedView)>, slug: Seq<char>) -> Seq<(Seq<char>, FeedView)>
    decreases feeds.len(),
{
    if feeds.len() == 0 {
        Seq::empty()
    } else {
        let before = without_slug(feeds.drop_last(), slug);
        if feeds.last().0 == slug {
            before
        } else {
            before.push(feeds.last())
        }
    }
}

/// The feeds of the slugs in `order` that have one, in that order.
pub open spec fn chosen(order: Seq<Seq<char>>, feeds: Seq<(Seq<char>, FeedView)>) -> Seq<FeedView>
    decreases order.len(),
{
    if order.len() == 0 {
        Seq::empty()
    } else {
        let before = chosen(order.drop_last(), feeds);
        match feed_of(feeds, order.last()) {
            Some(feed) => before.push(feed),
            None => before,
        }
    }
}

/// The Quick picks of the feeds that have some, in order.
pub open spec fn some_picks(lanes: Seq<FeedView>) -> Seq<Seq<TrackView>>
    decreases lanes.len(),
{
    if lanes.len() == 0 {
        Seq::empty()
    } else {
        let before = some_picks(lanes.drop_last());
        match lanes.last().quick_picks {
            Some(picks) => before.push(picks),
            None => before,
        }
    }
}

/// One feed of every provider, woven a row at a time so that no provider owns the top of the
/// page: what was played lately, Quick picks when some provider has them, and the shelves.
pub open spec fn woven_feed(lanes: Seq<FeedView>) -> FeedView {
    FeedView {
        listen_again: weave(lanes.map_values(|feed: FeedView| feed.listen_again)),
        quick_picks: if some_picks(lanes).len() > 0 {
            Some(weave(some_picks(lanes)))
        } else {
            None
        },
        sections: weave(lanes.map_values(|feed: FeedView| feed.sections)),
    }
}

/// The feeds of the providers asked: the slugs in provider order, so that weaving keeps the
/// same lanes between lots, and each provider's feed so far, by slug.
pub struct Lanes {
    order: Vec<String>,
    feeds: Vec<(String, HomeFeed)>,
}

/// The feeds by slug as plain values.
pub open spec fn feeds_view(feeds: Seq<(String, HomeFeed)>) -> Seq<(Seq<char>, FeedView)> {
    feeds.map_values(|entry: (String, HomeFeed)| (entry.0@, entry.1@))
}

/// Texts as plain values.
pub open spec fn texts_view(texts: Seq<String>) -> Seq<Seq<char>> {
    texts.map_values(|text: String| text@)
}

impl View for Lanes {
    type V = LanesView;

    closed spec fn view(&self) -> LanesView {
        LanesView { order: texts_view(self.order@), feeds: feeds_view(self.feeds@) }
    }
}

impl Lanes {
    /// The feed of `slug` so far.
    fn find(&self, slug: &String) -> (r: Option<&HomeFeed>)
        ensures
            match r {
                Some(feed) => feed_of(self@.feeds, slug@) == Some(feed@),
                None => feed_of(self@.feeds, slug@) is None,
            },
    {
        let ghost all = self@.feeds;
        let mut i: usize = 0;
        assert(all.skip(0) =~= all);
        while i < self.feeds.len()
            invariant
                i <= self.feeds@.len(),
                all == self@.feeds,
                all == feeds_view(self.feeds@),
                feed_of(all, slug@) == feed_of(all.skip(i as int), slug@),
            decreases self.feeds@.len() - i,
        {
            assert(all.skip(i as int).drop_first() =~= all.skip(i + 1));
            assert(all.skip(i as int)[0] == (self.feeds@[i as int].0@, self.feeds@[i as int].1@));
            if same_text(&self.feeds[i].0, slug) {
                return Some(&self.feeds[i].1);
            }
            i = i + 1;
        }
        None
    }

    /// Records `feed` as the feed of `slug`, in place of any before it.
    fn put(&mut self, slug: String, feed: HomeFeed)
        ensures
            final(self)@ == (LanesView {
                feeds: without_slug(old(self)@.feeds, slug@).push((slug@, feed@)),
                ..old(self)@
            }),
    {
        let mut all: Vec<(String, HomeFeed)> = Vec::new();
        std::mem::swap(&mut all, &mut self.feeds);
        let ghost before = feeds_view(all@);
        let mut kept: Vec<(String, HomeFeed)> = Vec::new();
        assert(feeds_view(kept@) =~= without_slug(before.subrange(0, 0), slug@));
        while all.len() > 0
            invariant
                feeds_view(kept@) == without_slug(
                    before.subrange(0, before.len() - feeds_view(all@).len()),
                    slug@,
                ),
                feeds_view(all@) == before.subrange(before.len() - feeds_view(all@).len(), before.len() as int),
                feeds_view(all@).len() <= before.len(),
            decreases all@.len(),
        {
            let ghost gone = before.len() - feeds_view(all@).len();
            let ghost old_all = all@;
            let entry = all.remove(0);
            proof {
                assert(before.subrange(0, gone + 1).drop_last() =~= before.subrange(0, gone));
                assert(feeds_view(old_all)[0] == before.subrange(gone, before.len() as int)[0]);
                assert(before[gone] == (entry.0@, entry.1@));
                assert(feeds_view(all@) =~= feeds_view(old_all).drop_first());
                assert(feeds_view(all@) =~= before.subrange(gone + 1, before.len() as int));
            }
            if !same_text(&entry.0, &slug) {
                let ghost was = kept@;
                kept.push(entry);
                proof {
                    assert(feeds_view(kept@) =~= feeds_view(was).push(before[gone]));
                }
            }
            assert(feeds_view(kept@) =~= without_slug(before.subrange(0, gone + 1), slug@));
        }
        proof {
            assert(before.subrange(0, before.len() as int) =~= before);
        }
        let ghost was = kept@;
        kept.push((slug, feed));
        proof {
            assert(feeds_view(kept@) =~= feeds_view(was).push((slug@, feed@)));
        }
        self.feeds = kept;
    }

    /// One feed of every provider asked that has one, woven a row at a time.
    fn woven(&self) -> (r: HomeFeed)
        ensures
            r@ == woven_feed(chosen(self@.order, self@.feeds)),
    {
        let ghost order = self@.order;
        let ghost feeds = self@.feeds;
        let mut recent: Vec<Vec<GenreItem>> = Vec::new();
        let mut picks: Vec<Vec<Track>> = Vec::new();
        let mut shelves: Vec<Vec<GenreSection>> = Vec::new();
        let mut i: usize = 0;
        proof {
            assert(order.subrange(0, 0) =~= Seq::<Seq<char>>::empty());
            assert(lane_views(recent@) =~= Seq::<Seq<ItemView>>::empty());
            assert(lane_views(picks@) =~= Seq::<Seq<TrackView>>::empty());
            assert(lane_views(shelves@) =~= Seq::<Seq<SectionView>>::empty());
        }
        while i < self.order.len()
            invariant
                i <= self.order@.len(),
                order == self@.order,
                feeds == self@.feeds,
                order == texts_view(self.order@),
                lane_views(recent@) == chosen(order.subrange(0, i as int), feeds).map_values(
                    |feed: FeedView| feed.listen_again,
                ),
                lane_views(picks@) == some_picks(chosen(order.subrange(0, i as int), feeds)),
                lane_views(shelves@) == chosen(order.subrange(0, i as int), feeds).map_values(
                    |feed: FeedView| feed.sections,
                ),
            decreases self.order@.len() - i,
        {
            let ghost lanes = chosen(order.subrange(0, i as int), feeds);
            proof {
                assert(order.subrange(0, i + 1).drop_last() =~= order.subrange(0, i as int));
                assert(order.subrange(0, i + 1).last() == self.order@[i as int]@);
            }
            match self.find(&self.order[i]) {
                Some(feed) => {
                    let ghost was_recent = recent@;
                    let ghost was_picks = picks@;
                    let ghost was_shelves = shelves@;
                    recent.push(copy_all(&feed.listen_again));
                    shelves.push(copy_all(&feed.sections));
                    match &feed.quick_picks {
                        Some(some) => {
                            picks.push(copy_all(some));
                            proof {
                                assert(lane_views(picks@) =~= lane_views(was_picks).push(
                                    views_of(some@),
                                ));
                            }
                        },
                        None => {},
                    }
                    proof {
                        let grown = lanes.push(feed@);
                        assert(grown.drop_last() =~= lanes);
                        assert(lane_views(recent@) =~= lane_views(was_recent).push(
                            views_of(recent@.last()@),
                        ));
                        assert(lane_views(shelves@) =~= lane_views(was_shelves).push(
                            views_of(shelves@.last()@),
                        ));
                        assert(lane_views(recent@) =~= grown.map_values(
                            |feed: FeedView| feed.listen_again,
                        ));
                        assert(lane_views(shelves@) =~= grown.map_values(
                            |feed: FeedView| feed.sections,
                        ));
                    }
                },
                None => {},
            }
            i = i + 1;
        }
        proof {
            assert(order.subrange(0, i as int) =~= order);
        }
        let listen_again = woven_copies(&recent);
        let sections = woven_copies(&shelves);
        let quick_picks = if picks.len() > 0 {
            Some(woven_copies(&picks))
        } else {
            None
        };
        HomeFeed { listen_again, quick_picks, sections }
    }
}

/// The home page as it stands: the feeds of the providers asked, what was played lately and
/// the picks after it, Quick picks made of them, the shelves drawn, whether the page is in
/// view, the lot held back while it is, how many fetches in a row brought nothing, whether
/// one is in flight, and why the last brought nothing.
pub struct Page {
    lanes: Lanes,
    recent: Vec<GenreItem>,
    picks: Vec<Track>,
    quick_picks: Vec<GenreItem>,
    sections: Vec<GenreSection>,
    visible: bool,
    pending: Option<HomeFeed>,
    failures: usize,
    feeding: bool,
    error: Option<String>,
}

/// The home page as plain values.
pub struct PageView {
    pub lanes: LanesView,
    pub recent: Seq<ItemView>,
    pub picks: Seq<TrackView>,
    pub quick_picks: Seq<ItemView>,
    pub sections: Seq<SectionView>,
    pub visible: bool,
    pub pending: Option<FeedView>,
    pub failures: usize,
    pub feeding: bool,
    pub error: Option<Seq<char>>,
}

impl View for Page {
    type V = PageView;

    closed spec fn view(&self) -> PageView {
        PageView {
            lanes: self.lanes@,
            recent: views_of(self.recent@),
            picks: views_of(self.picks@),
            quick_picks: views_of(self.quick_picks@),
            sections: views_of(self.sections@),
            visible: self.visible,
            pending: feed_view(self.pending),
            failures: self.failures,
            feeding: self.feeding,
            error: crate::track::text_of(self.error),
        }
    }
}

/// The page after a lot is put on it as it is: what was played lately, the picks if the lot
/// has any, Quick picks made anew of them, and the shelves without blank tiles.
pub open spec fn take_spec(page: PageView, feed: FeedView) -> PageView {
    let picks = match feed.quick_picks {
        Some(picks) => picks,
        None => page.picks,
    };
    PageView {
        recent: feed.listen_again,
        picks,
        quick_picks: merge_spec(feed.listen_again, picks),
        sections: pruned_spec(feed.sections),
        ..page
    }
}

/// What a lot that lands in view puts on the page: the shelves drawn keep their tiles, what was
/// played lately and the picks only grow at their end, and the lot is held back whole when
/// some of it could not land.
pub open spec fn land_spec(page: PageView, feed: FeedView) -> PageView {
    if !page.visible {
        take_spec(PageView { error: None, pending: None, ..page }, feed)
    } else {
        let lot = pruned_spec(feed.sections);
        let grown = starts(page.recent, feed.listen_again);
        let picks = match feed.quick_picks {
            Some(picks) => if starts(page.picks, picks) {
                Some(picks)
            } else {
                None
            },
            None => None,
        };
        let held = any_held(lot, page.sections) || !grown || (feed.quick_picks is Some
            && picks is None);
        take_spec(
            PageView {
                error: None,
                pending: if held {
                    Some(feed)
                } else {
                    None
                },
                ..page
            },
            FeedView {
                listen_again: if grown {
                    feed.listen_again
                } else {
                    page.recent
                },
                quick_picks: picks,
                sections: landed_sections(lot, page.sections),
            },
        )
    }
}

/// Shelves as plain values, when there are some.
pub open spec fn names_view(names: Option<Vec<GenreSection>>) -> Option<Seq<SectionView>> {
    match names {
        Some(sections) => Some(views_of(sections@)),
        None => None,
    }
}

/// The shelves to have the provider name after a lot is put on the page as it is: the lot's,
/// when some tile among them is blank.
pub open spec fn names_spec(feed: FeedView) -> Option<Seq<SectionView>> {
    if has_blank(feed.sections) {
        Some(feed.sections)
    } else {
        None
    }
}

/// The shelves to have named after a lot lands: none when the page is in view, where the lot
/// lands pruned.
pub open spec fn land_names(page: PageView, feed: FeedView) -> Option<Seq<SectionView>> {
    if page.visible {
        None
    } else {
        names_spec(feed)
    }
}

/// Whether some shelf holds a blank tile.
fn any_blank(sections: &Vec<GenreSection>) -> (r: bool)
    ensures
        r == has_blank(views_of(sections@)),
{
    let ghost all = views_of(sections@);
    let mut k: usize = 0;
    while k < sections.len()
        invariant
            k <= sections@.len(),
            all == views_of(sections@),
            forall|a: int, j: int|
                0 <= a < k && 0 <= j < all[a].items.len() ==> !#[trigger] blank_spec(
                    #[trigger] all[a].items[j],
                ),
        decreases sections@.len() - k,
    {
        let items = &sections[k].items;
        let mut j: usize = 0;
        while j < items.len()
            invariant
                k < sections@.len(),
                j <= items@.len(),
                *items == sections@[k as int].items,
                all == views_of(sections@),
                forall|b: int| 0 <= b < j ==> !#[trigger] blank_spec(all[k as int].items[b]),
            decreases items@.len() - j,
        {
            if blank(&items[j]) {
                assert(blank_spec(all[k as int].items[j as int]));
                return true;
            }
            j = j + 1;
        }
        k = k + 1;
    }
    false
}

/// The first shelf of that title among those drawn.
fn find_titled<'a>(shown: &'a Vec<GenreSection>, title: &String) -> (r: Option<&'a GenreSection>)
    ensures
        match r {
            Some(drawn) => first_titled(views_of(shown@), title@) == Some(drawn@),
            None => first_titled(views_of(shown@), title@) is None,
        },
{
    let ghost all = views_of(shown@);
    let mut i: usize = 0;
    assert(all.skip(0) =~= all);
    while i < shown.len()
        invariant
            i <= shown@.len(),
            all == views_of(shown@),
            first_titled(all, title@) == first_titled(all.skip(i as int), title@),
        decreases shown@.len() - i,
    {
        assert(all.skip(i as int).drop_first() =~= all.skip(i + 1));
        assert(all.skip(i as int)[0] == shown@[i as int]@);
        if same_text(&shown[i].title, title) {
            return Some(&shown[i]);
        }
        i = i + 1;
    }
    None
}

impl Page {
    /// Whether the page is as it can be drawn: its shelves are pruned, and Quick picks are made
    /// of what was played lately and the picks.
    pub open spec fn wf(&self) -> bool {
        &&& pruned_spec(self@.sections) == self@.sections
        &&& self@.quick_picks == merge_spec(self@.recent, self@.picks)
    }

    /// An empty page, out of view, with nothing asked or fetched yet.
    pub fn new() -> (r: Page)
        ensures
            r@ == (PageView {
                lanes: LanesView { order: Seq::empty(), feeds: Seq::empty() },
                recent: Seq::empty(),
                picks: Seq::empty(),
                quick_picks: Seq::empty(),
                sections: Seq::empty(),
                visible: false,
                pending: None,
                failures: 0,
                feeding: false,
                error: None,
            }),
            r.wf(),
    {
        let r = Page {
            lanes: Lanes { order: Vec::new(), feeds: Vec::new() },
            recent: Vec::new(),
            picks: Vec::new(),
            quick_picks: Vec::new(),
            sections: Vec::new(),
            visible: false,
            pending: None,
            failures: 0,
            feeding: false,
            error: None,
        };
        proof {
            assert(texts_view(r.lanes.order@) =~= Seq::<Seq<char>>::empty());
            assert(feeds_view(r.lanes.feeds@) =~= Seq::<(Seq<char>, FeedView)>::empty());
            assert(views_of(r.recent@) =~= Seq::<ItemView>::empty());
            assert(views_of(r.picks@) =~= Seq::<TrackView>::empty());
            assert(views_of(r.quick_picks@) =~= Seq::<ItemView>::empty());
            assert(views_of(r.sections@) =~= Seq::<SectionView>::empty());
            assert(fresh(Seq::<TrackView>::empty(), Seq::<ItemView>::empty()) =~= Seq::<
                TrackView,
            >::empty());
            assert(merge_spec(Seq::empty(), Seq::empty()) =~= Seq::<ItemView>::empty());
        }
        r
    }

    /// What was played lately, as the page draws it.
    pub fn recent(&self) -> (r: &Vec<GenreItem>)
        ensures
            views_of(r@) == self@.recent,
    {
        &self.recent
    }

    /// The picks that follow what was played lately.
    pub fn picks(&self) -> (r: &Vec<Track>)
        ensures
            views_of(r@) == self@.picks,
    {
        &self.picks
    }

    /// Quick picks as the page draws them.
    pub fn quick_picks(&self) -> (r: &Vec<GenreItem>)
        ensures
            views_of(r@) == self@.quick_picks,
    {
        &self.quick_picks
    }

    /// The shelves as the page draws them.
    pub fn sections(&self) -> (r: &Vec<GenreSection>)
        ensures
            views_of(r@) == self@.sections,
    {
        &self.sections
    }

    /// The lot held back while the page is in view.
    pub fn pending(&self) -> (r: &Option<HomeFeed>)
        ensures
            feed_view(*r) == self@.pending,
    {
        &self.pending
    }

    /// Whether a fetch is in flight.
    pub fn is_feeding(&self) -> (r: bool)
        ensures
            r == self@.feeding,
    {
        self.feeding
    }

    /// Why the page is empty, when the feed failed rather than came back empty: nothing while
    /// a fetch is in flight or the page has anything to draw.
    pub fn error(&self) -> (r: Option<&String>)
        ensures
            match r {
                Some(reason) => !self@.feeding && self@.sections.len() == 0 && self@.quick_picks.len()
                    == 0 && self@.error == Some(reason@),
                None => self@.feeding || self@.sections.len() > 0 || self@.quick_picks.len() > 0
                    || self@.error is None,
            },
    {
        if self.feeding || self.sections.len() > 0 || self.quick_picks.len() > 0 {
            None
        } else {
            match &self.error {
                Some(reason) => Some(reason),
                None => None,
            }
        }
    }

    /// A fetch of the feed from the providers of `slugs`, in provider order, is about to start:
    /// answers whether it does, which it does when none is in flight, the page has no shelves
    /// and some provider is signed in. A fetch that starts forgets the feeds that came before
    /// and the reason the last one failed.
    pub fn begin(&mut self, slugs: Vec<String>) -> (r: bool)
        requires
            old(self).wf(),
        ensures
            final(self).wf(),
            r == (!old(self)@.feeding && old(self)@.sections.len() == 0 && slugs@.len() > 0),
            r ==> final(self)@ == (PageView {
                lanes: LanesView { order: texts_view(slugs@), feeds: Seq::empty() },
                feeding: true,
                error: None,
                ..old(self)@
            }),
            !r ==> final(self)@ == old(self)@,
    {
        if self.feeding || self.sections.len() > 0 || slugs.len() == 0 {
            return false;
        }
        self.lanes = Lanes { order: slugs, feeds: Vec::new() };
        self.feeding = true;
        self.error = None;
        proof {
            assert(feeds_view(self.lanes.feeds@) =~= Seq::<(Seq<char>, FeedView)>::empty());
        }
        true
    }

    /// Records why a provider brought nothing. It only reaches the page when no provider
    /// brought anything.
    pub fn stumbled(&mut self, reason: String)
        requires
            old(self).wf(),
        ensures
            final(self).wf(),
            final(self)@ == (PageView {
                error: if old(self)@.lanes.feeds.len() == 0 {
                    Some(reason@)
                } else {
                    old(self)@.error
                },
                ..old(self)@
            }),
    {
        if self.lanes.feeds.len() == 0 {
            self.error = Some(reason);
        }
    }

    /// Puts a lot on the page as it is. Answers with the lot's shelves when some tile among
    /// them is blank, for the provider to name.
    fn take(&mut self, feed: HomeFeed) -> (names: Option<Vec<GenreSection>>)
        requires
            old(self).wf(),
        ensures
            final(self).wf(),
            final(self)@ == take_spec(old(self)@, feed@),
            names_view(names) == names_spec(feed@),
    {
        let HomeFeed { listen_again, quick_picks, sections } = feed;
        let merged = match &quick_picks {
            Some(picks) => merge(&listen_again, picks),
            None => merge(&listen_again, &self.picks),
        };
        let shown = pruned(&sections);
        proof {
            lemma_pruned_twice(views_of(sections@));
        }
        let names = if any_blank(&sections) {
            Some(sections)
        } else {
            None
        };
        match quick_picks {
            Some(picks) => {
                self.picks = picks;
            },
            None => {},
        }
        self.recent = listen_again;
        self.quick_picks = merged;
        self.sections = shown;
        names
    }

    /// Puts a lot on the page. Out of view it lands as it is, and nothing stays held back. In
    /// view only what is missing lands: a shelf already drawn keeps its tiles even when the lot
    /// has others for it, what was played lately and the picks only grow at their end, and
    /// the lot is kept whole to land once the page is out of view. Answers with the shelves
    /// to have the provider name.
    pub fn land(&mut self, feed: HomeFeed) -> (names: Option<Vec<GenreSection>>)
        requires
            old(self).wf(),
        ensures
            final(self).wf(),
            final(self)@ == land_spec(old(self)@, feed@),
            names_view(names) == land_names(old(self)@, feed@),
    {
        self.error = None;
        if !self.visible {
            self.pending = None;
            return self.take(feed);
        }
        let lot = pruned(&feed.sections);
        let ghost lv = views_of(lot@);
        let ghost shown = views_of(self.sections@);
        let mut held = false;
        let mut sections: Vec<GenreSection> = Vec::new();
        let mut i: usize = 0;
        assert(views_of(sections@) =~= landed_sections(lv.subrange(0, 0), shown));
        while i < lot.len()
            invariant
                i <= lot@.len(),
                lv == views_of(lot@),
                shown == views_of(self.sections@),
                views_of(sections@) == landed_sections(lv.subrange(0, i as int), shown),
                held == any_held(lv.subrange(0, i as int), shown),
            decreases lot@.len() - i,
        {
            let section = &lot[i];
            let ghost before = sections@;
            let ghost upto = lv.subrange(0, i + 1);
            proof {
                assert(upto.drop_last() =~= lv.subrange(0, i as int));
                assert(upto[i as int] == section@);
            }
            match find_titled(&self.sections, &section.title) {
                Some(drawn) => {
                    if !all_alike(&drawn.items, &section.items) {
                        sections.push(drawn.duplicate());
                        held = true;
                    } else {
                        sections.push(section.duplicate());
                    }
                },
                None => {
                    sections.push(section.duplicate());
                },
            }
            proof {
                lemma_views_push(before, sections@.last());
                assert(views_of(sections@) =~= landed_sections(upto, shown));
                if held_one(section@, shown) {
                    assert(held_one(upto[i as int], shown));
                }
                if any_held(lv.subrange(0, i as int), shown) {
                    let k = choose|k: int|
                        0 <= k < i && #[trigger] held_one(lv.subrange(0, i as int)[k], shown);
                    assert(upto[k] == lv.subrange(0, i as int)[k]);
                    assert(held_one(upto[k], shown));
                }
                if any_held(upto, shown) {
                    let k = choose|k: int| 0 <= k < i + 1 && #[trigger] held_one(upto[k], shown);
                    if k < i {
                        assert(upto[k] == lv.subrange(0, i as int)[k]);
                        assert(held_one(lv.subrange(0, i as int)[k], shown));
                    }
                }
            }
            i = i + 1;
        }
        proof {
            assert(lv.subrange(0, i as int) =~= lv);
            lemma_pruned_clean(views_of(feed.sections@));
            lemma_pruned_clean(shown);
            lemma_landed_clean(lv, shown);
        }
        let grown = starts_with(&self.recent, &feed.listen_again);
        let listen_again = if grown {
            copy_all(&feed.listen_again)
        } else {
            copy_all(&self.recent)
        };
        let quick_picks = match &feed.quick_picks {
            Some(picks) => if starts_with(&self.picks, picks) {
                Some(copy_all(picks))
            } else {
                None
            },
            None => None,
        };
        held = held || !grown || (feed.quick_picks.is_some() && quick_picks.is_none());
        self.pending = if held {
            Some(feed)
        } else {
            None
        };
        self.take(HomeFeed { listen_again, quick_picks, sections })
    }

    /// Records one provider's feed, its shelves credited to the provider's name `name`, and
    /// lands the feeds of all providers asked, woven a row at a time. Answers with the shelves
    /// to have the provider name, as `land` does.
    pub fn lane(&mut self, slug: String, name: &str, feed: HomeFeed) -> (names: Option<Vec<GenreSection>>)
        requires
            old(self).wf(),
        ensures
            final(self).wf(),
            ({
                let credited_feed = FeedView {
                    sections: credited_spec(name@, feed@.sections),
                    ..feed@
                };
                let lanes = LanesView {
                    feeds: without_slug(old(self)@.lanes.feeds, slug@).push((slug@, credited_feed)),
                    ..old(self)@.lanes
                };
                let woven = woven_feed(chosen(lanes.order, lanes.feeds));
                &&& final(self)@ == land_spec(PageView { lanes, ..old(self)@ }, woven)
                &&& names_view(names) == land_names(old(self)@, woven)
            }),
    {
        let HomeFeed { listen_again, quick_picks, sections } = feed;
        let sections = credited(name, &sections);
        self.lanes.put(slug, HomeFeed { listen_again, quick_picks, sections });
        let woven = self.lanes.woven();
        self.land(woven)
    }

    /// Puts the shelves the providers named on the page, each provider's credited to its name,
    /// woven a row at a time and without blank tiles left.
    pub fn named(&mut self, parts: Vec<(String, Vec<GenreSection>)>)
        requires
            old(self).wf(),
        ensures
            final(self).wf(),
            final(self)@ == (PageView {
                sections: pruned_spec(
                    weave(
                        parts@.map_values(
                            |part: (String, Vec<GenreSection>)|
                                credited_spec(part.0@, views_of(part.1@)),
                        ),
                    ),
                ),
                ..old(self)@
            }),
    {
        let ghost lanes = parts@.map_values(
            |part: (String, Vec<GenreSection>)| credited_spec(part.0@, views_of(part.1@)),
        );
        let mut shelves: Vec<Vec<GenreSection>> = Vec::new();
        let mut i: usize = 0;
        assert(lane_views(shelves@) =~= lanes.subrange(0, 0));
        while i < parts.len()
            invariant
                i <= parts@.len(),
                lanes == parts@.map_values(
                    |part: (String, Vec<GenreSection>)| credited_spec(part.0@, views_of(part.1@)),
                ),
                lane_views(shelves@) == lanes.subrange(0, i as int),
            decreases parts@.len() - i,
        {
            let ghost was = shelves@;
            shelves.push(credited(parts[i].0.as_str(), &parts[i].1));
            proof {
                assert(lane_views(shelves@) =~= lane_views(was).push(views_of(shelves@.last()@)));
                assert(lanes.subrange(0, i + 1) =~= lanes.subrange(0, i as int).push(lanes[i as int]));
            }
            assert(lane_views(shelves@) =~= lanes.subrange(0, i + 1));
            i = i + 1;
        }
        assert(lanes.subrange(0, i as int) =~= lanes);
        let woven = woven_copies(&shelves);
        let shown = pruned(&woven);
        proof {
            lemma_pruned_twice(views_of(woven@));
        }
        self.sections = shown;
    }

    /// Tells the page whether it is in view. Leaving the view lands whatever was held back
    /// while it was, as it is, so the page comes back changed rather than changing in view;
    /// answers with the shelves to have the provider name.
    pub fn set_visible(&mut self, visible: bool) -> (names: Option<Vec<GenreSection>>)
        requires
            old(self).wf(),
        ensures
            final(self).wf(),
            visible || old(self)@.pending is None ==> final(self)@ == (PageView {
                visible,
                ..old(self)@
            }) && names is None,
            !visible && old(self)@.pending is Some ==> final(self)@ == take_spec(
                PageView { visible, pending: None, ..old(self)@ },
                old(self)@.pending->0,
            ) && names_view(names) == names_spec(old(self)@.pending->0),
    {
        self.visible = visible;
        if visible {
            return None;
        }
        let mut pending: Option<HomeFeed> = None;
        std::mem::swap(&mut pending, &mut self.pending);
        match pending {
            Some(held) => self.take(held),
            None => None,
        }
    }

    /// A fetch ended. One that left the page with nothing to draw is tried again after a
    /// pause, three times at most in a row: answers how long to wait, if at all. One that
    /// brought something starts the count over.
    pub fn fed(&mut self) -> (wait: Option<u64>)
        requires
            old(self).wf(),
        ensures
            final(self).wf(),
            old(self)@.sections.len() == 0 && old(self)@.recent.len() == 0 ==> {
                &&& wait == retry_spec(old(self)@.failures as int)
                &&& final(self)@ == (PageView {
                    feeding: false,
                    failures: if wait is Some {
                        (old(self)@.failures + 1) as usize
                    } else {
                        old(self)@.failures
                    },
                    ..old(self)@
                })
            },
            !(old(self)@.sections.len() == 0 && old(self)@.recent.len() == 0) ==> wait is None
                && final(self)@ == (PageView { feeding: false, failures: 0, ..old(self)@ }),
    {
        self.feeding = false;
        if self.sections.len() == 0 && self.recent.len() == 0 {
            let wait = if self.failures == 0 {
                Some(3000)
            } else if self.failures == 1 {
                Some(10_000)
            } else if self.failures == 2 {
                Some(30_000)
            } else {
                None
            };
            if wait.is_some() {
                self.failures = self.failures + 1;
            }
            wait
        } else {
            self.failures = 0;
            None
        }
    }

    /// Asks for the feed again after a failure, with the pauses between tries started over.
    pub fn retry(&mut self)
        requires
            old(self).wf(),
        ensures
            final(self).wf(),
            final(self)@ == (PageView { failures: 0, ..old(self)@ }),
    {
        self.failures = 0;
    }

    /// Takes picks mixed from the library, but only in place of a provider's that never came:
    /// not while a fetch is in flight, and never over picks already there. Answers whether
    /// they were taken.
    pub fn mix(&mut self, picks: Vec<Track>) -> (r: bool)
        requires
            old(self).wf(),
        ensures
            final(self).wf(),
            r == (!old(self)@.feeding && old(self)@.picks.len() == 0),
            r ==> final(self)@ == (PageView {
                picks: views_of(picks@),
                quick_picks: merge_spec(old(self)@.recent, views_of(picks@)),
                ..old(self)@
            }),
            !r ==> final(self)@ == old(self)@,
    {
        if self.feeding || self.picks.len() > 0 {
            return false;
        }
        let merged = merge(&self.recent, &picks);
        self.picks = picks;
        self.quick_picks = merged;
        true
    }
}

/// While the page is in view, a shelf already drawn keeps its tiles: every shelf that lands
/// under the title of one drawn has the tiles of the first drawn under that title.
pub proof fn lemma_drawn_shelves_stay(lot: Seq<SectionView>, shown: Seq<SectionView>, k: int)
    requires
        0 <= k < lot.len(),
        first_titled(shown, lot[k].title) is Some,
    ensures
        landed_sections(lot, shown)[k].items == first_titled(shown, lot[k].title)->0.items,
{
}

/// While the page is in view, what was played lately and the picks only grow at their end:
/// what was drawn before is where it was.
pub proof fn lemma_rows_only_grow(drawn: Seq<ItemView>, lot: Seq<ItemView>)
    ensures
        starts(drawn, if starts(drawn, lot) {
            lot
        } else {
            drawn
        }),
{
    assert(drawn.take(drawn.len() as int) =~= drawn);
}

} // verus!
