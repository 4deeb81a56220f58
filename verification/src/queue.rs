//! The moves the play queue is made of: what was played, what plays, and what plays next, and
//! how a jump, a move, a removal or a sign-out rearranges them.

use std::collections::VecDeque;
use vstd::prelude::*;
use vstd::std_specs::cmp::PartialEqSpec;

use crate::track::{copy_optional, same_optional, same_text, text_of, Track};

verus! {

/// An optional item as a sequence of none or one.
pub open spec fn optional<T>(item: Option<T>) -> Seq<T> {
    match item {
        Some(item) => seq![item],
        None => Seq::empty(),
    }
}

/// `keep` can be asked about any item, and answers each the same way every time.
pub open spec fn decides<T, F: Fn(&T) -> bool>(keep: F) -> bool {
    &&& forall|item: T| #[trigger] keep.requires((&item,))
    &&& forall|item: T, answer: bool| #[trigger]
        keep.ensures((&item,), answer) ==> (answer <==> keep.ensures((&item,), true))
}

/// What `keep` says of `item`.
pub open spec fn kept<T, F: Fn(&T) -> bool>(keep: F, item: T) -> bool {
    keep.ensures((&item,), true)
}

/// The items of `items` that `keep` keeps, in their order.
pub open spec fn sifted<T, F: Fn(&T) -> bool>(items: Seq<T>, keep: F) -> Seq<T> {
    items.filter(|item: T| kept(keep, item))
}

/// Where moving an item from `from` lands it when it is dropped into gap `gap` of a list of
/// `len`: the gap is pinned to the list, and a gap after the item's own place closes up by one.
pub open spec fn gap_target_spec(from: int, gap: int, len: int) -> int {
    let gap = if gap < len {
        gap
    } else {
        len
    };
    if gap > from {
        gap - 1
    } else {
        gap
    }
}

/// `items` with the item at `from` taken out and put back at `to`.
pub open spec fn moved<T>(items: Seq<T>, from: int, to: int) -> Seq<T> {
    items.remove(from).insert(to, items[from])
}

/// Moves the item at `from` to `to`. Nothing moves, and the answer is `false`, when either
/// index is outside the list or they are the same.
pub fn move_item<T>(items: &mut VecDeque<T>, from: usize, to: usize) -> (r: bool)
    ensures
        r == (from < old(items)@.len() && to < old(items)@.len() && from != to),
        r ==> final(items)@ == moved(old(items)@, from as int, to as int),
        !r ==> final(items)@ == old(items)@,
{
    if from >= items.len() || to >= items.len() || from == to {
        return false;
    }
    let item = match items.remove(from) {
        Some(item) => item,
        None => return false,
    };
    items.insert(to, item);
    true
}

/// Replays the item at `index` of `past`: it becomes current, and what came after it in
/// `past`, then what was current, line up ahead of `upcoming`. Nothing changes, and the answer
/// is `false`, when `index` is past the end of `past`.
pub fn select_past<T>(
    past: &mut Vec<T>,
    current: &mut Option<T>,
    upcoming: &mut VecDeque<T>,
    index: usize,
) -> (r: bool)
    ensures
        r == (index < old(past)@.len()),
        r ==> final(past)@ == old(past)@.subrange(0, index as int) && *final(current) == Some(
            old(past)@[index as int],
        ) && final(upcoming)@ == old(past)@.subrange(index + 1, old(past)@.len() as int)
            + optional(*old(current)) + old(upcoming)@,
        !r ==> final(past)@ == old(past)@ && *final(current) == *old(current) && final(upcoming)@
            == old(upcoming)@,
{
    if index >= past.len() {
        return false;
    }
    let ghost was_past = past@;
    let ghost was_upcoming = upcoming@;
    let ghost was_current = *current;
    let mut replay = past.split_off(index);
    let mut ahead: VecDeque<T> = VecDeque::new();
    std::mem::swap(&mut ahead, upcoming);
    let mut playing: Option<T> = None;
    std::mem::swap(&mut playing, current);
    match playing {
        Some(item) => ahead.push_front(item),
        None => {},
    }
    assert(ahead@ == optional(was_current) + was_upcoming);
    while replay.len() > 1
        invariant
            1 <= replay@.len(),
            replay@ == was_past.subrange(index as int, index + replay@.len()),
            index + replay@.len() <= was_past.len(),
            ahead@ == was_past.subrange(index + replay@.len(), was_past.len() as int)
                + optional(was_current) + was_upcoming,
        decreases replay@.len(),
    {
        let ghost before = ahead@;
        let item = replay.pop().unwrap();
        ahead.push_front(item);
        assert(ahead@ =~= was_past.subrange(index + replay@.len(), was_past.len() as int)
            + optional(was_current) + was_upcoming);
    }
    let selected = replay.pop().unwrap();
    *current = Some(selected);
    *upcoming = ahead;
    true
}

/// Jumps to the item at `index` of `upcoming`: what was current and what came before the item
/// go to `past`, in order, and the item becomes current. Nothing changes, and the answer is
/// `false`, when `index` is past the end of `upcoming`.
pub fn select_upcoming<T>(
    past: &mut Vec<T>,
    current: &mut Option<T>,
    upcoming: &mut VecDeque<T>,
    index: usize,
) -> (r: bool)
    ensures
        r == (index < old(upcoming)@.len()),
        r ==> final(past)@ == old(past)@ + optional(*old(current)) + old(upcoming)@.subrange(
            0,
            index as int,
        ) && *final(current) == Some(old(upcoming)@[index as int]) && final(upcoming)@ == old(upcoming)@.subrange(index + 1, old(upcoming)@.len() as int),
        !r ==> final(past)@ == old(past)@ && *final(current) == *old(current) && final(upcoming)@
            == old(upcoming)@,
{
    let ghost was_past = past@;
    let ghost was_upcoming = upcoming@;
    let ghost was_current = *current;
    let selected = match upcoming.remove(index) {
        Some(item) => item,
        None => return false,
    };
    let mut playing = Some(selected);
    std::mem::swap(&mut playing, current);
    match playing {
        Some(item) => past.push(item),
        None => {},
    }
    assert(past@ =~= was_past + optional(was_current));
    let mut skipped: usize = 0;
    while skipped < index
        invariant
            skipped <= index,
            index < was_upcoming.len(),
            past@ == was_past + optional(was_current) + was_upcoming.subrange(0, skipped as int),
            upcoming@ == was_upcoming.remove(index as int).subrange(
                skipped as int,
                was_upcoming.len() - 1,
            ),
        decreases index - skipped,
    {
        let item = upcoming.pop_front().unwrap();
        past.push(item);
        skipped = skipped + 1;
        assert(past@ =~= was_past + optional(was_current) + was_upcoming.subrange(
            0,
            skipped as int,
        ));
        assert(upcoming@ =~= was_upcoming.remove(index as int).subrange(
            skipped as int,
            was_upcoming.len() - 1,
        ));
    }
    assert(upcoming@ =~= was_upcoming.subrange(index + 1, was_upcoming.len() as int));
    true
}

/// Drops the oldest items of `past` beyond `limit`.
pub fn trim<T>(past: &mut Vec<T>, limit: usize)
    ensures
        old(past)@.len() <= limit ==> final(past)@ == old(past)@,
        old(past)@.len() > limit ==> final(past)@ == old(past)@.subrange(
            old(past)@.len() - limit,
            old(past)@.len() as int,
        ),
{
    let over: usize = if past.len() > limit {
        past.len() - limit
    } else {
        0
    };
    if over > 0 {
        let kept = past.split_off(over);
        *past = kept;
    }
}

/// Whether `sequence` is `source`, item for item.
pub fn in_order<T: PartialEq>(sequence: &[T], source: &[T]) -> (r: bool)
    requires
        T::obeys_eq_spec(),
    ensures
        r == (sequence@.len() == source@.len() && forall|i: int|
            0 <= i < sequence@.len() ==> #[trigger] sequence@[i].eq_spec(&source@[i])),
{
    if sequence.len() != source.len() {
        return false;
    }
    let mut i: usize = 0;
    while i < sequence.len()
        invariant
            sequence@.len() == source@.len(),
            i <= sequence@.len(),
            T::obeys_eq_spec(),
            forall|j: int| 0 <= j < i ==> #[trigger] sequence@[j].eq_spec(&source@[j]),
        decreases sequence@.len() - i,
    {
        if !(sequence[i] == source[i]) {
            return false;
        }
        i = i + 1;
    }
    true
}

/// Where an item moved from `from` lands when it is dropped into gap `gap` of a list of `len`.
pub fn gap_target(from: usize, gap: usize, len: usize) -> (r: usize)
    ensures
        r == gap_target_spec(from as int, gap as int, len as int),
{
    let gap = if gap < len {
        gap
    } else {
        len
    };
    if gap > from {
        gap - 1
    } else {
        gap
    }
}

/// The items of `items` that `keep` keeps, in order.
fn sift_vec<T, F: Fn(&T) -> bool>(items: &mut Vec<T>, keep: &F)
    requires
        decides(*keep),
    ensures
        final(items)@ == sifted(old(items)@, *keep),
{
    let ghost all = items@;
    let mut from: Vec<T> = Vec::new();
    std::mem::swap(&mut from, items);
    let mut reversed: Vec<T> = Vec::new();
    while from.len() > 0
        invariant
            from@.len() <= all.len(),
            from@ == all.subrange(0, from@.len() as int),
            decides(*keep),
            reversed@.len() == all.len() - from@.len(),
            forall|k: int| 0 <= k < reversed@.len() ==> #[trigger] reversed@[k] == all[all.len() - 1 - k],
        decreases from@.len(),
    {
        let item = from.pop().unwrap();
        reversed.push(item);
    }
    let mut out: Vec<T> = Vec::new();
    while reversed.len() > 0
        invariant
            reversed@.len() <= all.len(),
            forall|k: int| 0 <= k < reversed@.len() ==> #[trigger] reversed@[k] == all[all.len() - 1 - k],
            decides(*keep),
            out@ == sifted(all.subrange(0, all.len() - reversed@.len()), *keep),
        decreases reversed@.len(),
    {
        let ghost done = all.len() - reversed@.len();
        let item = reversed.pop().unwrap();
        assert(item == all[done]);
        let wanted = keep(&item);
        proof {
            reveal(Seq::filter);
            assert(all.subrange(0, done + 1).drop_last() =~= all.subrange(0, done));
            assert(all.subrange(0, done + 1).last() == item);
            assert(wanted == kept(*keep, item));
        }
        if wanted {
            out.push(item);
        }
    }
    assert(all.subrange(0, all.len() as int) =~= all);
    *items = out;
}

/// The items of a queue of `items` that `keep` keeps, in order.
fn sift_deque<T, F: Fn(&T) -> bool>(items: &mut VecDeque<T>, keep: &F)
    requires
        decides(*keep),
    ensures
        final(items)@ == sifted(old(items)@, *keep),
{
    let ghost all = items@;
    let mut out: VecDeque<T> = VecDeque::new();
    let mut seen: usize = 0;
    let total = items.len();
    while items.len() > 0
        invariant
            seen <= all.len(),
            all.len() == total,
            items@ == all.subrange(seen as int, all.len() as int),
            decides(*keep),
            out@ == sifted(all.subrange(0, seen as int), *keep),
        decreases items@.len(),
    {
        let item = items.pop_front().unwrap();
        let wanted = keep(&item);
        proof {
            reveal(Seq::filter);
            assert(all.subrange(0, seen + 1).drop_last() =~= all.subrange(0, seen as int));
            assert(all.subrange(0, seen + 1).last() == item);
        }
        if wanted {
            out.push_back(item);
        }
        seen = seen + 1;
    }
    assert(all.subrange(0, all.len() as int) =~= all);
    *items = out;
}

/// Keeps only what `keep` keeps, everywhere in the queue: in `past`, in `current`, in
/// `upcoming` and in `source`. Answers whether anything went.
pub fn sift<T, F: Fn(&T) -> bool>(
    past: &mut Vec<T>,
    current: &mut Option<T>,
    upcoming: &mut VecDeque<T>,
    source: &mut Vec<T>,
    keep: F,
) -> (r: bool)
    requires
        decides(keep),
    ensures
        final(past)@ == sifted(old(past)@, keep),
        *final(current) == match *old(current) {
            Some(item) => if kept(keep, item) {
                Some(item)
            } else {
                None
            },
            None => None,
        },
        final(upcoming)@ == sifted(old(upcoming)@, keep),
        final(source)@ == sifted(old(source)@, keep),
        r == (final(past)@.len() + optional(*final(current)).len() + final(upcoming)@.len()
            + final(source)@.len() != old(past)@.len() + optional(*old(current)).len() + old(upcoming)@.len() + old(source)@.len()),
{
    let before: usize = 0;
    let ghost total = past@.len() + optional(*current).len() + upcoming@.len() + source@.len();
    proof {
        lemma_sifted_len(past@, keep);
        lemma_sifted_len(upcoming@, keep);
        lemma_sifted_len(source@, keep);
    }
    let past_before = past.len();
    let upcoming_before = upcoming.len();
    let source_before = source.len();
    sift_vec(past, &keep);
    let had_current = current.is_some();
    let drop_current = match current {
        Some(item) => !keep(item),
        None => false,
    };
    if drop_current {
        *current = None;
    }
    sift_deque(upcoming, &keep);
    sift_vec(source, &keep);
    let _ = before;
    past.len() != past_before || drop_current || upcoming.len() != upcoming_before
        || source.len() != source_before
}

/// Sifting never adds an item.
pub proof fn lemma_sifted_len<T, F: Fn(&T) -> bool>(items: Seq<T>, keep: F)
    ensures
        sifted(items, keep).len() <= items.len(),
{
    items.lemma_filter_len(|item: T| kept(keep, item));
}


/// How many played tracks the history keeps.
pub const PAST_LIMIT: usize = 500;

/// `past` with the oldest tracks beyond `PAST_LIMIT` dropped.
pub open spec fn trimmed<T>(past: Seq<T>) -> Seq<T> {
    if past.len() > PAST_LIMIT {
        past.subrange(past.len() - PAST_LIMIT, past.len() as int)
    } else {
        past
    }
}

/// A revision one on from `revision`, wrapping around.
pub open spec fn bumped(revision: u64) -> u64 {
    if revision == u64::MAX {
        0
    } else {
        (revision + 1) as u64
    }
}

/// Whether a track with id `id` is one of `source`'s.
pub open spec fn known(source: Seq<Track>, id: Option<Seq<char>>) -> bool {
    match id {
        Some(id) => exists|j: int| 0 <= j < source.len() && source[j]@.id == Some(id),
        None => false,
    }
}

/// The tracks of `upcoming` that `source` does not know, in their order: the ones queued by
/// hand from elsewhere.
pub open spec fn strangers(upcoming: Seq<Track>, source: Seq<Track>) -> Seq<Track> {
    upcoming.filter(|track: Track| !known(source, track@.id))
}

/// `source` without what is playing: the first track whose id is `playing`, when something
/// with an id plays; every other track stays.
pub open spec fn skipping(source: Seq<Track>, playing: Option<Seq<char>>) -> Seq<Track>
    decreases source.len(),
{
    if source.len() == 0 {
        source
    } else if playing is Some && source[0]@.id == playing {
        skipping(source.drop_first(), None)
    } else {
        seq![source[0]] + skipping(source.drop_first(), playing)
    }
}

/// The id of what plays, when something with an id does.
pub open spec fn playing_id(current: Option<Track>) -> Option<Seq<char>> {
    match current {
        Some(track) => track@.id,
        None => None,
    }
}

/// What shuffling draws from: the strangers of `upcoming`, then the source less what plays.
pub open spec fn shuffle_pool(upcoming: Seq<Track>, source: Seq<Track>, current: Option<Track>) -> Seq<
    Track,
> {
    strangers(upcoming, source) + skipping(source, playing_id(current))
}

/// Where the first track of `source` with id `id` is.
pub open spec fn first_with(source: Seq<Track>, id: Seq<char>) -> Option<int> {
    if exists|j: int| 0 <= j < source.len() && source[j]@.id == Some(id) {
        Some(
            choose|j: int|
                0 <= j < source.len() && source[j]@.id == Some(id) && forall|k: int|
                    0 <= k < j ==> source[k]@.id != Some(id),
        )
    } else {
        None
    }
}

/// What follows what plays in `source`: everything after its first copy, or the whole source
/// when it is not there.
pub open spec fn source_tail(source: Seq<Track>, current: Option<Track>) -> Seq<Track> {
    match playing_id(current) {
        Some(id) => match first_with(source, id) {
            Some(at) => source.subrange(at + 1, source.len() as int),
            None => source,
        },
        None => source,
    }
}

/// The order shuffling off brings back: the source after what plays, then the strangers.
pub open spec fn restored(upcoming: Seq<Track>, source: Seq<Track>, current: Option<Track>) -> Seq<
    Track,
> {
    source_tail(source, current) + strangers(upcoming, source)
}

/// Shuffling off brings back the source after what plays, in the source's order, and puts
/// the tracks queued from elsewhere after it, in the order they were in, whether or not
/// anything plays: nothing from elsewhere goes ahead of the source. With nothing playing the
/// whole source comes first; with a track of the source playing, what follows it there.
pub proof fn lemma_restore_puts_strangers_last(
    upcoming: Seq<Track>,
    source: Seq<Track>,
    current: Option<Track>,
)
    ensures
        ({
            let back = restored(upcoming, source, current);
            let tail = source_tail(source, current);
            &&& back.len() == tail.len() + strangers(upcoming, source).len()
            &&& back.take(tail.len() as int) == tail
            &&& back.skip(tail.len() as int) == strangers(upcoming, source)
        }),
        forall|i: int|
            0 <= i < upcoming.len() && !known(source, (#[trigger] upcoming[i])@.id) ==> restored(
                upcoming,
                source,
                current,
            ).skip(source_tail(source, current).len() as int).contains(upcoming[i]),
        forall|k: int|
            source_tail(source, current).len() <= k < restored(upcoming, source, current).len()
                ==> upcoming.contains(#[trigger] restored(upcoming, source, current)[k]) && !known(
                source,
                restored(upcoming, source, current)[k]@.id,
            ),
        playing_id(current) is None ==> restored(upcoming, source, current).take(
            source.len() as int,
        ) == source,
        forall|at: int|
            #![trigger source.subrange(at + 1, source.len() as int)]
            0 <= at < source.len() && playing_id(current) == Some(source[at]@.id->0)
                && source[at]@.id is Some && (forall|k: int|
                0 <= k < at ==> source[k]@.id != source[at]@.id)
                ==> restored(upcoming, source, current).take(source.len() - (at + 1))
                == source.subrange(at + 1, source.len() as int),
{
    let back = restored(upcoming, source, current);
    let tail = source_tail(source, current);
    assert(back.take(tail.len() as int) =~= tail);
    assert(back.skip(tail.len() as int) =~= strangers(upcoming, source));
    let keep = |track: Track| !known(source, track@.id);
    assert forall|i: int|
        0 <= i < upcoming.len() && !known(source, (#[trigger] upcoming[i])@.id) implies back.skip(
        tail.len() as int,
    ).contains(upcoming[i]) by {
        upcoming.lemma_filter_contains(keep, i);
    }
    assert forall|k: int| tail.len() <= k < back.len() implies upcoming.contains(
        #[trigger] back[k],
    ) && !known(source, back[k]@.id) by {
        let x = back[k];
        let picked = upcoming.filter(keep);
        assert(picked[k - tail.len()] == x);
        assert(picked.contains(x));
        upcoming.lemma_filter_contains_rev(keep, x);
        upcoming.lemma_filter_pred(keep, k - tail.len());
    }
    assert forall|at: int|
        #![trigger source.subrange(at + 1, source.len() as int)]
        0 <= at < source.len() && playing_id(current) == Some(source[at]@.id->0)
            && source[at]@.id is Some && (forall|k: int|
            0 <= k < at ==> source[k]@.id != source[at]@.id)
            implies back.take(source.len() - (at + 1)) == source.subrange(
            at + 1,
            source.len() as int,
        ) by {
        let id = source[at]@.id->0;
        let c = choose|j: int|
            0 <= j < source.len() && source[j]@.id == Some(id) && forall|k: int|
                0 <= k < j ==> source[k]@.id != Some(id);
        assert(0 <= c < source.len() && source[c]@.id == Some(id) && forall|k: int|
            0 <= k < c ==> source[k]@.id != Some(id));
        if c < at {
            assert(source[c]@.id != source[at]@.id);
        }
        if at < c {
            assert(source[at]@.id != Some(id));
        }
        assert(first_with(source, id) == Some(at));
        assert(tail == source.subrange(at + 1, source.len() as int));
    }
}

/// A copy of every track, in order.
fn copy_all(tracks: &Vec<Track>) -> (r: Vec<Track>)
    ensures
        r@ == tracks@,
{
    let mut r: Vec<Track> = Vec::new();
    let mut i: usize = 0;
    while i < tracks.len()
        invariant
            i <= tracks@.len(),
            r@ == tracks@.subrange(0, i as int),
        decreases tracks@.len() - i,
    {
        r.push(tracks[i].copy());
        i = i + 1;
        assert(r@ =~= tracks@.subrange(0, i as int));
    }
    assert(tracks@.subrange(0, tracks@.len() as int) =~= tracks@);
    r
}

/// A copy of the tracks of a queue from `from` up to `to`.
fn copy_range(tracks: &VecDeque<Track>, from: usize, to: usize) -> (r: Vec<Track>)
    requires
        from <= to <= tracks@.len(),
    ensures
        r@ == tracks@.subrange(from as int, to as int),
{
    let mut r: Vec<Track> = Vec::new();
    let mut i: usize = from;
    while i < to
        invariant
            from <= i <= to <= tracks@.len(),
            r@ == tracks@.subrange(from as int, i as int),
        decreases to - i,
    {
        r.push(tracks[i].copy());
        i = i + 1;
        assert(r@ =~= tracks@.subrange(from as int, i as int));
    }
    r
}

/// Whether `source` knows a track with the id `id`.
fn knows(source: &Vec<Track>, id: &Option<String>) -> (r: bool)
    ensures
        r == known(source@, text_of(*id)),
{
    match id {
        None => false,
        Some(_) => {
            let mut j: usize = 0;
            while j < source.len()
                invariant
                    j <= source@.len(),
                    text_of(*id) is Some,
                    forall|k: int| 0 <= k < j ==> source@[k]@.id != text_of(*id),
                decreases source@.len() - j,
            {
                if same_optional(&source[j].id, id) {
                    return true;
                }
                j = j + 1;
            }
            false
        },
    }
}

/// The strangers of `upcoming`, taken out of it.
fn take_strangers(upcoming: &mut VecDeque<Track>, source: &Vec<Track>) -> (r: Vec<Track>)
    ensures
        r@ == strangers(old(upcoming)@, source@),
        final(upcoming)@ == Seq::<Track>::empty(),
{
    let ghost all = upcoming@;
    let mut out: Vec<Track> = Vec::new();
    let mut seen: usize = 0;
    let total = upcoming.len();
    while upcoming.len() > 0
        invariant
            seen <= all.len(),
            all.len() == total,
            upcoming@ == all.subrange(seen as int, all.len() as int),
            out@ == strangers(all.subrange(0, seen as int), source@),
        decreases upcoming@.len(),
    {
        let track = upcoming.pop_front().unwrap();
        let wanted = !knows(source, &track.id);
        proof {
            reveal(Seq::filter);
            assert(all.subrange(0, seen + 1).drop_last() =~= all.subrange(0, seen as int));
            assert(all.subrange(0, seen + 1).last() == track);
        }
        if wanted {
            out.push(track);
        }
        seen = seen + 1;
    }
    assert(all.subrange(0, all.len() as int) =~= all);
    out
}

proof fn lemma_skipping_step(source: Seq<Track>, i: int, playing: Option<Seq<char>>)
    requires
        0 <= i < source.len(),
    ensures
        skipping(source.subrange(i, source.len() as int), playing) == if playing is Some
            && source[i]@.id == playing {
            skipping(source.subrange(i + 1, source.len() as int), None)
        } else {
            seq![source[i]] + skipping(source.subrange(i + 1, source.len() as int), playing)
        },
{
    let rest = source.subrange(i, source.len() as int);
    assert(rest.drop_first() =~= source.subrange(i + 1, source.len() as int));
    assert(rest[0] == source[i]);
}

/// Copies of the source less what plays.
fn skip_playing(source: &Vec<Track>, current: &Option<Track>) -> (r: Vec<Track>)
    ensures
        r@ == skipping(source@, playing_id(*current)),
{
    let mut playing: Option<String> = match current {
        Some(track) => copy_optional(&track.id),
        None => None,
    };
    let mut out: Vec<Track> = Vec::new();
    let mut i: usize = 0;
    assert(source@.subrange(0, source@.len() as int) =~= source@);
    while i < source.len()
        invariant
            i <= source@.len(),
            out@ + skipping(source@.subrange(i as int, source@.len() as int), text_of(playing))
                == skipping(source@, playing_id(*current)),
        decreases source@.len() - i,
    {
        proof {
            lemma_skipping_step(source@, i as int, text_of(playing));
        }
        if playing.is_some() && same_optional(&playing, &source[i].id) {
            playing = None;
        } else {
            let ghost before = out@;
            out.push(source[i].copy());
            assert(out@ + skipping(source@.subrange(i + 1, source@.len() as int), text_of(playing))
                =~= before + (seq![source@[i as int]] + skipping(
                source@.subrange(i + 1, source@.len() as int),
                text_of(playing),
            )));
        }
        i = i + 1;
    }
    assert(source@.subrange(i as int, source@.len() as int) =~= Seq::<Track>::empty());
    assert(out@ + Seq::<Track>::empty() =~= out@);
    out
}

/// Puts tracks into an order that depends on chance alone.
#[verifier::external_body]
fn shuffled(tracks: &mut Vec<Track>)
    ensures
        final(tracks)@.to_multiset() == old(tracks)@.to_multiset(),
{
    fastrand::shuffle(tracks)
}

/// Shuffles what is to play: the strangers of `upcoming` and the source less what plays,
/// in an order chance picks.
pub fn scramble(upcoming: &mut VecDeque<Track>, source: &Vec<Track>, current: &Option<Track>)
    ensures
        final(upcoming)@.to_multiset() == shuffle_pool(old(upcoming)@, source@, *current).to_multiset(),
{
    let mut tracks = take_strangers(upcoming, source);
    let mut rest = skip_playing(source, current);
    tracks.append(&mut rest);
    shuffled(&mut tracks);
    let mut out: VecDeque<Track> = VecDeque::new();
    let ghost all = tracks@;
    let mut i: usize = 0;
    while tracks.len() > 0
        invariant
            tracks@.len() + out@.len() == all.len(),
            tracks@ == all.subrange(0, tracks@.len() as int),
            out@ == all.subrange(tracks@.len() as int, all.len() as int),
        decreases tracks@.len(),
    {
        let track = tracks.pop().unwrap();
        out.push_front(track);
        assert(out@ =~= all.subrange(tracks@.len() as int, all.len() as int));
    }
    assert(out@ =~= all);
    *upcoming = out;
}

/// Where the first track of `source` with the id of what plays is, if anything with an id
/// plays and the source has it.
fn playing_at(source: &Vec<Track>, current: &Option<Track>) -> (r: Option<usize>)
    ensures
        r matches Some(at) ==> at < source@.len() && (playing_id(*current) matches Some(id)
            && first_with(source@, id) == Some(at as int)),
        r is None ==> playing_id(*current) is None || first_with(
            source@,
            playing_id(*current)->0,
        ) is None,
{
    let id = match current {
        Some(track) => match &track.id {
            Some(_) => &track.id,
            None => return None,
        },
        None => return None,
    };
    let mut j: usize = 0;
    while j < source.len()
        invariant
            j <= source@.len(),
            text_of(*id) == playing_id(*current),
            text_of(*id) is Some,
            forall|k: int| 0 <= k < j ==> source@[k]@.id != text_of(*id),
        decreases source@.len() - j,
    {
        if same_optional(&source[j].id, id) {
            proof {
                let x = text_of(*id)->0;
                let c = choose|c: int|
                    0 <= c < source@.len() && source@[c]@.id == Some(x) && forall|k: int|
                        0 <= k < c ==> source@[k]@.id != Some(x);
                assert(source@[j as int]@.id == Some(x));
                if c < j {
                    assert(source@[c]@.id != Some(x));
                } else if c > j {
                    assert(source@[j as int]@.id != Some(x));
                }
            }
            return Some(j);
        }
        j = j + 1;
    }
    None
}

/// Puts the source's order back: what follows what plays in the source, then the strangers
/// of `upcoming`.
pub fn restore(upcoming: &mut VecDeque<Track>, source: &Vec<Track>, current: &Option<Track>)
    ensures
        final(upcoming)@ == restored(old(upcoming)@, source@, *current),
{
    let mut extra = take_strangers(upcoming, source);
    let found = playing_at(source, current);
    let size = source.len();
    let from: usize = match found {
        Some(at) => at + 1,
        None => 0,
    };
    proof {
        match found {
            Some(at) => {
                assert(source_tail(source@, *current) == source@.subrange(from as int, source@.len() as int));
            },
            None => {
                assert(source_tail(source@, *current) == source@);
                assert(source@.subrange(0, source@.len() as int) =~= source@);
            },
        }
    }
    let mut out: VecDeque<Track> = VecDeque::new();
    let mut i: usize = from;
    while i < source.len()
        invariant
            from <= i <= source@.len(),
            out@ == source@.subrange(from as int, i as int),
        decreases source@.len() - i,
    {
        out.push_back(source[i].copy());
        i = i + 1;
        assert(out@ =~= source@.subrange(from as int, i as int));
    }
    let ghost tail = out@;
    assert(tail == source_tail(source@, *current));
    let mut j: usize = 0;
    while j < extra.len()
        invariant
            j <= extra@.len(),
            out@ == tail + extra@.subrange(0, j as int),
        decreases extra@.len() - j,
    {
        out.push_back(extra[j].copy());
        j = j + 1;
        assert(out@ =~= tail + extra@.subrange(0, j as int));
    }
    assert(extra@.subrange(0, extra@.len() as int) =~= extra@);
    *upcoming = out;
}


/// The items of a list, as a queue.
fn deque_of<T>(items: Vec<T>) -> (r: VecDeque<T>)
    ensures
        r@ == items@,
{
    let mut items = items;
    let ghost all = items@;
    let mut out: VecDeque<T> = VecDeque::new();
    while items.len() > 0
        invariant
            items@.len() + out@.len() == all.len(),
            items@ == all.subrange(0, items@.len() as int),
            out@ == all.subrange(items@.len() as int, all.len() as int),
        decreases items@.len(),
    {
        let item = items.pop().unwrap();
        out.push_front(item);
        assert(out@ =~= all.subrange(items@.len() as int, all.len() as int));
    }
    assert(out@ =~= all);
    out
}

/// Takes the first `count` items off a queue and hands them back.
fn take_front<T>(items: &mut VecDeque<T>, count: usize) -> (r: VecDeque<T>)
    requires
        count <= old(items)@.len(),
    ensures
        r@ == old(items)@.subrange(0, count as int),
        final(items)@ == old(items)@.subrange(count as int, old(items)@.len() as int),
{
    let mut back = items.split_off(count);
    std::mem::swap(items, &mut back);
    back
}

/// Appends a queue's items to a list, in order.
fn push_all<T>(out: &mut Vec<T>, items: VecDeque<T>)
    ensures
        final(out)@ == old(out)@ + items@,
{
    let mut items = items;
    let ghost start = out@;
    let ghost all = items@;
    let mut taken: usize = 0;
    let total = items.len();
    while items.len() > 0
        invariant
            taken <= all.len(),
            all.len() == total,
            items@ == all.subrange(taken as int, all.len() as int),
            out@ == start + all.subrange(0, taken as int),
        decreases items@.len(),
    {
        let item = items.pop_front().unwrap();
        out.push(item);
        taken = taken + 1;
        assert(out@ =~= start + all.subrange(0, taken as int));
    }
    assert(all.subrange(0, all.len() as int) =~= all);
}

/// Puts the items of `items` into a queue at `at`, in order.
fn insert_all<T>(upcoming: &mut VecDeque<T>, at: usize, items: Vec<T>)
    requires
        at <= old(upcoming)@.len(),
    ensures
        final(upcoming)@ == old(upcoming)@.subrange(0, at as int) + items@ + old(upcoming)@.subrange(at as int, old(upcoming)@.len() as int),
{
    let mut back = upcoming.split_off(at);
    let mut middle = deque_of(items);
    upcoming.append(&mut middle);
    upcoming.append(&mut back);
}

/// Whether `track` carries one of `ids`.
pub open spec fn listed(ids: Seq<String>, track: Track) -> bool {
    match track@.id {
        Some(id) => exists|j: int| 0 <= j < ids.len() && ids[j]@ == id,
        None => false,
    }
}

/// The tracks of `tracks` that carry none of `ids`, in order.
pub open spec fn unlisted(tracks: Seq<Track>, ids: Seq<String>) -> Seq<Track> {
    tracks.filter(|track: Track| !listed(ids, track))
}

fn is_listed(ids: &[String], track: &Track) -> (r: bool)
    ensures
        r == listed(ids@, *track),
{
    match &track.id {
        None => false,
        Some(id) => {
            let mut j: usize = 0;
            while j < ids.len()
                invariant
                    j <= ids@.len(),
                    track@.id == Some(id@),
                    forall|k: int| 0 <= k < j ==> ids@[k]@ != id@,
                decreases ids@.len() - j,
            {
                if same_text(&ids[j], id) {
                    return true;
                }
                j = j + 1;
            }
            false
        },
    }
}

/// The tracks of a list that carry none of `ids`, in order.
fn drop_listed(items: &mut Vec<Track>, ids: &[String])
    ensures
        final(items)@ == unlisted(old(items)@, ids@),
{
    let ghost all = items@;
    let mut from: Vec<Track> = Vec::new();
    std::mem::swap(&mut from, items);
    let mut kept_tracks: VecDeque<Track> = deque_of(from);
    let mut out: Vec<Track> = Vec::new();
    let mut seen: usize = 0;
    let total = kept_tracks.len();
    while kept_tracks.len() > 0
        invariant
            seen <= all.len(),
            all.len() == total,
            kept_tracks@ == all.subrange(seen as int, all.len() as int),
            out@ == unlisted(all.subrange(0, seen as int), ids@),
        decreases kept_tracks@.len(),
    {
        let track = kept_tracks.pop_front().unwrap();
        let wanted = !is_listed(ids, &track);
        proof {
            reveal(Seq::filter);
            assert(all.subrange(0, seen + 1).drop_last() =~= all.subrange(0, seen as int));
            assert(all.subrange(0, seen + 1).last() == track);
        }
        if wanted {
            out.push(track);
        }
        seen = seen + 1;
    }
    assert(all.subrange(0, all.len() as int) =~= all);
    *items = out;
}

/// The tracks of a queue that carry none of `ids`, in order.
fn drop_listed_deque(items: &mut VecDeque<Track>, ids: &[String])
    ensures
        final(items)@ == unlisted(old(items)@, ids@),
{
    let ghost all = items@;
    let mut out: VecDeque<Track> = VecDeque::new();
    let mut seen: usize = 0;
    let total = items.len();
    while items.len() > 0
        invariant
            seen <= all.len(),
            all.len() == total,
            items@ == all.subrange(seen as int, all.len() as int),
            out@ == unlisted(all.subrange(0, seen as int), ids@),
        decreases items@.len(),
    {
        let track = items.pop_front().unwrap();
        let wanted = !is_listed(ids, &track);
        proof {
            reveal(Seq::filter);
            assert(all.subrange(0, seen + 1).drop_last() =~= all.subrange(0, seen as int));
            assert(all.subrange(0, seen + 1).last() == track);
        }
        if wanted {
            out.push_back(track);
        }
        seen = seen + 1;
    }
    assert(all.subrange(0, all.len() as int) =~= all);
    *items = out;
}

/// A filter that keeps everything leaves the list as it was.
proof fn lemma_filter_keeps_all<T>(items: Seq<T>, keep: spec_fn(T) -> bool)
    requires
        forall|i: int| 0 <= i < items.len() ==> keep(#[trigger] items[i]),
    ensures
        items.filter(keep) == items,
    decreases items.len(),
{
    reveal(Seq::filter);
    if items.len() > 0 {
        lemma_filter_keeps_all(items.drop_last(), keep);
        assert(items.drop_last().push(items.last()) =~= items);
    }
}

/// Whether a text reading `x` is among `found`.
pub open spec fn among(found: Seq<String>, x: Seq<char>) -> bool {
    exists|k: int| 0 <= k < found.len() && found[k]@ == x
}

/// Whether one of the first `upto` tracks of `tracks` carries the id `x`.
pub open spec fn carried(tracks: Seq<Track>, upto: int, x: Seq<char>) -> bool {
    exists|j: int| 0 <= j < upto && tracks[j]@.id == Some(x)
}

/// No text of `found` reads the same as another.
pub open spec fn each_once(found: Seq<String>) -> bool {
    forall|a: int, b: int| 0 <= a < b < found.len() ==> found[a]@ != found[b]@
}

/// Whether `id` is among `found`.
fn holds_id(found: &Vec<String>, id: &String) -> (r: bool)
    ensures
        r == among(found@, id@),
{
    let mut k: usize = 0;
    while k < found.len()
        invariant
            k <= found@.len(),
            forall|j: int| 0 <= j < k ==> found@[j]@ != id@,
        decreases found@.len() - k,
    {
        if same_text(&found[k], id) {
            return true;
        }
        k = k + 1;
    }
    false
}

/// The id of `track`, added to `found` unless it is there already.
fn gather_ids(found: &mut Vec<String>, track: &Track)
    requires
        each_once(old(found)@),
    ensures
        each_once(final(found)@),
        forall|x: Seq<char>| #[trigger]
            among(final(found)@, x) <==> (among(old(found)@, x) || track@.id == Some(x)),
{
    match &track.id {
        None => {},
        Some(id) => {
            if !holds_id(found, id) {
                let ghost before = found@;
                found.push(id.clone());
                assert forall|x: Seq<char>| #[trigger]
                    among(found@, x) <==> (among(before, x) || track@.id == Some(x)) by {
                    if among(found@, x) {
                        let k = choose|k: int| 0 <= k < found@.len() && found@[k]@ == x;
                        if k < before.len() {
                            assert(before[k]@ == x);
                        }
                    }
                    if track@.id == Some(x) {
                        assert(found@[before.len() as int]@ == x);
                    }
                    if among(before, x) {
                        let k = choose|k: int| 0 <= k < before.len() && before[k]@ == x;
                        assert(found@[k]@ == x);
                    }
                }
            }
        },
    }
}

proof fn lemma_carried_step(row: Seq<Track>, walked: int)
    requires
        0 <= walked < row.len(),
    ensures
        forall|x: Seq<char>| #[trigger]
            carried(row, walked + 1, x) <==> (carried(row, walked, x) || row[walked]@.id == Some(
                x,
            )),
{
    assert forall|x: Seq<char>| #[trigger]
        carried(row, walked + 1, x) <==> (carried(row, walked, x) || row[walked]@.id == Some(x)) by {
        if carried(row, walked + 1, x) {
            let j = choose|j: int| 0 <= j < walked + 1 && row[j]@.id == Some(x);
            if j < walked {
                assert(carried(row, walked, x));
            }
        }
        if carried(row, walked, x) {
            let j = choose|j: int| 0 <= j < walked && row[j]@.id == Some(x);
            assert(0 <= j < walked + 1 && row[j]@.id == Some(x));
        }
        if row[walked]@.id == Some(x) {
            assert(0 <= walked < walked + 1 && row[walked]@.id == Some(x));
        }
    }
}

/// The queue as a plain value: the history, what plays, what is to play and the source it was
/// started from; how many of the upcoming tracks open it as the ones queued by hand and how many
/// close it as suggestions; whether it is shuffled; and how many times it has changed.
pub struct QueueState {
    pub past: Seq<Track>,
    pub current: Option<Track>,
    pub upcoming: Seq<Track>,
    pub source: Seq<Track>,
    pub manual: nat,
    pub similar: nat,
    pub shuffle: bool,
    pub revision: u64,
}

/// How many upcoming tracks are queued rather than suggested.
pub open spec fn queued_of(state: QueueState) -> int {
    state.upcoming.len() - state.similar
}

/// The three runs of `upcoming` fit it: the hand-queued run and the suggestions never overlap.
pub open spec fn runs_fit(state: QueueState) -> bool {
    state.manual + state.similar <= state.upcoming.len()
}

/// What every change ends with: the history trimmed and the revision moved on.
pub open spec fn after_change(state: QueueState) -> QueueState {
    QueueState { past: trimmed(state.past), revision: bumped(state.revision), ..state }
}

/// What starting `tracks` at `index` leaves, unshuffled.
pub open spec fn started(state: QueueState, tracks: Seq<Track>, index: int) -> QueueState {
    after_change(
        QueueState {
            source: tracks,
            past: tracks.subrange(0, index),
            current: Some(tracks[index]),
            upcoming: tracks.subrange(index + 1, tracks.len() as int),
            manual: 0,
            similar: 0,
            ..state
        },
    )
}

/// Whether `after` is what starting `tracks` at `index` from `before` may leave: the order of
/// `started`, or with shuffle on an empty history and the shuffle pool in an order chance picks.
pub open spec fn start_leaves(
    before: QueueState,
    tracks: Seq<Track>,
    index: int,
    after: QueueState,
) -> bool {
    let plain = started(before, tracks, index);
    if before.shuffle {
        &&& after == QueueState { past: Seq::empty(), upcoming: after.upcoming, ..plain }
        &&& after.upcoming.to_multiset() == shuffle_pool(
            tracks.subrange(index + 1, tracks.len() as int),
            tracks,
            Some(tracks[index]),
        ).to_multiset()
    } else {
        after == plain
    }
}

/// How many played tracks a kept queue holds at most.
pub const KEPT_PAST: usize = 20;
/// How many queued tracks a kept queue holds at most.
pub const KEPT_UPCOMING: usize = 200;

/// Whether a track can be kept for the next run: only one with an id can be asked for again.
pub open spec fn has_id(track: Track) -> bool {
    track.id is Some
}

/// The tracks that have an id, in order.
pub open spec fn id_tracks(tracks: Seq<Track>) -> Seq<Track> {
    tracks.filter(|track: Track| has_id(track))
}

/// What is kept of a queue for the next run, and the provider it was kept for.
pub struct Kept {
    pub provider: String,
    pub past: Vec<Track>,
    pub current: Option<Track>,
    pub upcoming: Vec<Track>,
    pub manual: usize,
}

/// The tracks of `tracks[from..to]` that have an id, in order.
fn with_ids<T: AsTracks>(tracks: &T, from: usize, to: usize) -> (r: Vec<Track>)
    requires
        from <= to <= tracks.tracks().len(),
    ensures
        r@ == id_tracks(tracks.tracks().subrange(from as int, to as int)),
{
    let mut out: Vec<Track> = Vec::new();
    let mut i = from;
    while i < to
        invariant
            from <= i <= to,
            to <= tracks.tracks().len(),
            out@ == id_tracks(tracks.tracks().subrange(from as int, i as int)),
        decreases to - i,
    {
        let ghost upto = tracks.tracks().subrange(from as int, i + 1);
        assert(upto.drop_last() =~= tracks.tracks().subrange(from as int, i as int));
        reveal(Seq::filter);
        let track = tracks.track_at(i);
        if track.id.is_some() {
            out.push(track.copy());
        }
        i = i + 1;
    }
    out
}

/// Lists of tracks read by place.
pub trait AsTracks {
    /// The tracks, in order.
    spec fn tracks(&self) -> Seq<Track>;

    /// The track at `i`.
    fn track_at(&self, i: usize) -> (r: &Track)
        requires
            i < self.tracks().len(),
        ensures
            *r == self.tracks()[i as int],
    ;
}

impl AsTracks for Vec<Track> {
    open spec fn tracks(&self) -> Seq<Track> {
        self@
    }

    fn track_at(&self, i: usize) -> (r: &Track) {
        &self[i]
    }
}

impl AsTracks for VecDeque<Track> {
    open spec fn tracks(&self) -> Seq<Track> {
        self@
    }

    fn track_at(&self, i: usize) -> (r: &Track) {
        &self[i]
    }
}

/// The play order around the current track. `upcoming` is one list in three runs: the first
/// `manual` tracks are what the user queued by hand, then the rest of the source, then the last
/// `similar` tracks are radio suggestions. Add to queue and Play next land in the first run, so
/// they play before the album or playlist continues.
pub struct Queue {
    past: Vec<Track>,
    current: Option<Track>,
    upcoming: VecDeque<Track>,
    source: Vec<Track>,
    manual: usize,
    similar: usize,
    shuffle: bool,
    revision: u64,
}

impl Queue {
    /// The queue as a plain value.
    pub closed spec fn state(&self) -> QueueState {
        QueueState {
            past: self.past@,
            current: self.current,
            upcoming: self.upcoming@,
            source: self.source@,
            manual: self.manual as nat,
            similar: self.similar as nat,
            shuffle: self.shuffle,
            revision: self.revision,
        }
    }

    /// The runs of the queue fit together.
    pub open spec fn wf(&self) -> bool {
        runs_fit(self.state())
    }

    /// An empty queue that shuffles or not.
    pub fn new(shuffle: bool) -> (r: Self)
        ensures
            r.wf(),
            r.state() == (QueueState {
                past: Seq::empty(),
                current: None,
                upcoming: Seq::empty(),
                source: Seq::empty(),
                manual: 0,
                similar: 0,
                shuffle,
                revision: 0,
            }),
    {
        Queue {
            past: Vec::new(),
            current: None,
            upcoming: VecDeque::new(),
            source: Vec::new(),
            manual: 0,
            similar: 0,
            shuffle,
            revision: 0,
        }
    }

    fn changed(&mut self)
        ensures
            final(self).state() == after_change(old(self).state()),
    {
        trim(&mut self.past, PAST_LIMIT);
        self.revision = self.revision.wrapping_add(1);
    }

    fn queued(&self) -> (r: usize)
        requires
            self.wf(),
        ensures
            r == queued_of(self.state()),
    {
        self.upcoming.len() - self.similar
    }

    pub fn shuffle(&self) -> (r: bool)
        ensures
            r == self.state().shuffle,
    {
        self.shuffle
    }

    pub fn revision(&self) -> (r: u64)
        ensures
            r == self.state().revision,
    {
        self.revision
    }

    /// What has played, oldest first.
    pub fn past(&self) -> (r: &[Track])
        ensures
            r@ == self.state().past,
    {
        self.past.as_slice()
    }

    pub fn current(&self) -> (r: Option<&Track>)
        ensures
            r matches Some(track) ==> self.state().current == Some(*track),
            r is None <==> self.state().current is None,
    {
        match &self.current {
            Some(track) => Some(track),
            None => None,
        }
    }

    /// Everything queued to play, hand-queued tracks first, without the suggestions.
    pub fn upcoming(&self) -> (r: Vec<Track>)
        requires
            self.wf(),
        ensures
            r@ == self.state().upcoming.subrange(0, queued_of(self.state())),
    {
        copy_range(&self.upcoming, 0, self.queued())
    }

    /// The tracks the user queued by hand. They open `upcoming`.
    pub fn manual(&self) -> (r: Vec<Track>)
        requires
            self.wf(),
        ensures
            r@ == self.state().upcoming.subrange(0, self.state().manual as int),
    {
        copy_range(&self.upcoming, 0, self.manual)
    }

    /// The radio suggestions that close the queue.
    pub fn similar(&self) -> (r: Vec<Track>)
        requires
            self.wf(),
        ensures
            r@ == self.state().upcoming.subrange(
                queued_of(self.state()),
                self.state().upcoming.len() as int,
            ),
    {
        copy_range(&self.upcoming, self.queued(), self.upcoming.len())
    }

    pub fn len(&self) -> (r: usize)
        ensures
            r == self.state().upcoming.len(),
    {
        self.upcoming.len()
    }

    pub fn is_empty(&self) -> (r: bool)
        ensures
            r == (self.state().current is None && self.state().upcoming.len() == 0),
    {
        self.current.is_none() && self.upcoming.len() == 0
    }

    pub fn has_next(&self) -> (r: bool)
        ensures
            r == (self.state().upcoming.len() > 0),
    {
        self.upcoming.len() > 0
    }

    /// Whether the track `next` would hand back is a radio suggestion rather than one the queue
    /// was started with.
    pub fn next_is_suggested(&self) -> (r: bool)
        requires
            self.wf(),
        ensures
            r == (queued_of(self.state()) == 0 && self.state().similar > 0),
    {
        self.queued() == 0 && self.similar > 0
    }

    pub fn has_previous(&self) -> (r: bool)
        ensures
            r == (self.state().past.len() > 0),
    {
        self.past.len() > 0
    }

    /// Plays `tracks` from `index`: what comes before it is the history, what comes after it is
    /// to play, and the list is the source from now on. With shuffle on the history starts
    /// empty and what is to play is shuffled. Nothing changes when `index` is past the end.
    pub fn start(&mut self, tracks: Vec<Track>, index: usize) -> (r: Option<Track>)
        requires
            old(self).wf(),
        ensures
            final(self).wf(),
            index >= tracks@.len() ==> r is None && final(self).state() == old(self).state(),
            index < tracks@.len() ==> r == Some(tracks@[index as int]) && start_leaves(
                old(self).state(),
                tracks@,
                index as int,
                final(self).state(),
            ),
    {
        if index >= tracks.len() {
            return None;
        }
        let ghost all = tracks@;
        self.source = copy_all(&tracks);
        let mut past = tracks;
        let after = past.split_off(index + 1);
        self.upcoming = deque_of(after);
        self.manual = 0;
        self.similar = 0;
        self.current = past.pop();
        assert(past@ =~= all.subrange(0, index as int));
        if self.shuffle {
            scramble(&mut self.upcoming, &self.source, &self.current);
            past.clear();
        }
        self.past = past;
        self.changed();
        match &self.current {
            Some(track) => Some(track.copy()),
            None => None,
        }
    }

    /// Plays the next track: what played goes to the history, and a suggestion taken counts as
    /// one fewer. Nothing changes when nothing is to play.
    pub fn next(&mut self) -> (r: Option<Track>)
        requires
            old(self).wf(),
        ensures
            final(self).wf(),
            ({
                let was = old(self).state();
                &&& was.upcoming.len() == 0 ==> r is None && final(self).state() == was
                &&& was.upcoming.len() > 0 ==> r == Some(was.upcoming[0]) && final(self).state()
                    == after_change(
                    QueueState {
                        past: was.past + optional(was.current),
                        current: Some(was.upcoming[0]),
                        upcoming: was.upcoming.drop_first(),
                        manual: if was.manual > 0 {
                            (was.manual - 1) as nat
                        } else {
                            0
                        },
                        similar: if queued_of(was) == 0 {
                            (was.similar - 1) as nat
                        } else {
                            was.similar
                        },
                        ..was
                    },
                )
            }),
    {
        if self.upcoming.len() == 0 {
            return None;
        }
        if self.queued() == 0 && self.similar > 0 {
            self.similar = self.similar - 1;
        }
        let ghost was = self.past@;
        let ghost playing_before = self.current;
        let next = self.upcoming.pop_front().unwrap();
        self.manual = self.manual.saturating_sub(1);
        let mut playing = Some(next);
        std::mem::swap(&mut playing, &mut self.current);
        match playing {
            Some(played) => self.past.push(played),
            None => {},
        }
        assert(self.past@ =~= was + optional(playing_before));
        self.changed();
        match &self.current {
            Some(track) => Some(track.copy()),
            None => None,
        }
    }

    /// Jumps back to the track at `index` of the history. What was playing and anything after
    /// it in the history line up ahead of the hand-queued run, and join it, so Next returns to
    /// where the listener was. Nothing changes when `index` is past the end of the history.
    pub fn play_past(&mut self, index: usize) -> (r: Option<Track>)
        requires
            old(self).wf(),
        ensures
            final(self).wf(),
            ({
                let was = old(self).state();
                let ahead = was.past.subrange(index + 1, was.past.len() as int) + optional(
                    was.current,
                );
                &&& index >= was.past.len() ==> r is None && final(self).state() == was
                &&& index < was.past.len() ==> r == Some(was.past[index as int]) && final(self).state() == after_change(
                    QueueState {
                        past: was.past.subrange(0, index as int),
                        current: Some(was.past[index as int]),
                        upcoming: ahead + was.upcoming,
                        manual: was.manual + ahead.len(),
                        ..was
                    },
                )
            }),
    {
        let before = self.upcoming.len();
        if !select_past(&mut self.past, &mut self.current, &mut self.upcoming, index) {
            return None;
        }
        self.manual = self.manual + (self.upcoming.len() - before);
        self.changed();
        match &self.current {
            Some(track) => Some(track.copy()),
            None => None,
        }
    }

    /// Plays again the last playable track of the history, if there is one.
    pub fn previous(&mut self) -> (r: Option<Track>)
        requires
            old(self).wf(),
        ensures
            final(self).wf(),
            ({
                let was = old(self).state();
                &&& (forall|i: int| 0 <= i < was.past.len() ==> !(#[trigger] was.past[i]).playable)
                    ==> r is None && final(self).state() == was
                &&& (exists|i: int| 0 <= i < was.past.len() && (#[trigger] was.past[i]).playable)
                    ==> exists|i: int|
                    0 <= i < was.past.len() && was.past[i].playable && (forall|k: int|
                        i < k < was.past.len() ==> !(#[trigger] was.past[k]).playable) && r == Some(
                        was.past[i],
                    ) && final(self).state() == after_change(
                        QueueState {
                            past: was.past.subrange(0, i),
                            current: Some(was.past[i]),
                            upcoming: was.past.subrange(i + 1, was.past.len() as int) + optional(
                                was.current,
                            ) + was.upcoming,
                            manual: (was.manual + (was.past.len() - i - 1) + optional(was.current).len()) as nat,
                            ..was
                        },
                    )
            }),
    {
        let mut i: usize = self.past.len();
        while i > 0
            invariant
                i <= self.past@.len(),
                forall|k: int| i <= k < self.past@.len() ==> !(#[trigger] self.past@[k]).playable,
            ensures
                i <= self.past@.len(),
                forall|k: int| i <= k < self.past@.len() ==> !(#[trigger] self.past@[k]).playable,
                i == 0 || self.past@[i - 1].playable,
            decreases i,
        {
            if self.past[i - 1].playable {
                break;
            }
            i = i - 1;
        }
        if i == 0 {
            return None;
        }
        let ghost was = self.state();
        let index = i - 1;
        let r = self.play_past(index);
        assert(was.past.subrange(index + 1, was.past.len() as int).len() == was.past.len() - index
            - 1);
        assert(0 <= index < was.past.len() && was.past[index as int].playable && (forall|k: int|
            index < k < was.past.len() ==> !(#[trigger] was.past[k]).playable));
        r
    }

    /// Jumps to the track at `index` of what is queued. Hand-queued tracks it skips go to the
    /// history, but picking a track from the source keeps the hand-queued run for afterwards.
    /// Nothing changes when `index` is past what is queued.
    pub fn play_upcoming(&mut self, index: usize) -> (r: Option<Track>)
        requires
            old(self).wf(),
        ensures
            final(self).wf(),
            ({
                let was = old(self).state();
                let m = was.manual as int;
                &&& index >= queued_of(was) ==> r is None && final(self).state() == was
                &&& index < queued_of(was) ==> r == Some(was.upcoming[index as int]) && final(self).state() == after_change(
                    if index < m {
                        QueueState {
                            past: was.past + optional(was.current) + was.upcoming.subrange(
                                0,
                                index as int,
                            ),
                            current: Some(was.upcoming[index as int]),
                            upcoming: was.upcoming.subrange(index + 1, was.upcoming.len() as int),
                            manual: (m - index - 1) as nat,
                            ..was
                        }
                    } else {
                        QueueState {
                            past: was.past + optional(was.current) + was.upcoming.subrange(
                                m,
                                index as int,
                            ),
                            current: Some(was.upcoming[index as int]),
                            upcoming: was.upcoming.subrange(0, m) + was.upcoming.subrange(
                                index + 1,
                                was.upcoming.len() as int,
                            ),
                            ..was
                        }
                    },
                )
            }),
    {
        if index >= self.queued() {
            return None;
        }
        let ghost was = self.state();
        let selected = self.upcoming.remove(index).unwrap();
        let mut playing = Some(selected);
        std::mem::swap(&mut playing, &mut self.current);
        match playing {
            Some(played) => self.past.push(played),
            None => {},
        }
        if index < self.manual {
            let skipped = take_front(&mut self.upcoming, index);
            push_all(&mut self.past, skipped);
            self.manual = self.manual - (index + 1);
            assert(self.past@ =~= was.past + optional(was.current) + was.upcoming.subrange(
                0,
                index as int,
            ));
            assert(self.upcoming@ =~= was.upcoming.subrange(index + 1, was.upcoming.len() as int));
        } else {
            let kept = take_front(&mut self.upcoming, self.manual);
            let skipped = take_front(&mut self.upcoming, index - self.manual);
            push_all(&mut self.past, skipped);
            let mut rest: VecDeque<Track> = VecDeque::new();
            std::mem::swap(&mut rest, &mut self.upcoming);
            let mut front = kept;
            front.append(&mut rest);
            self.upcoming = front;
            assert(self.past@ =~= was.past + optional(was.current) + was.upcoming.subrange(
                was.manual as int,
                index as int,
            ));
            assert(self.upcoming@ =~= was.upcoming.subrange(0, was.manual as int)
                + was.upcoming.subrange(index + 1, was.upcoming.len() as int));
        }
        self.changed();
        match &self.current {
            Some(track) => Some(track.copy()),
            None => None,
        }
    }

    /// Jumps to the suggestion at `index`: everything ahead of it goes to the history, and the
    /// hand-queued run is over. Nothing changes when `index` is past the suggestions.
    pub fn play_similar(&mut self, index: usize) -> (r: Option<Track>)
        requires
            old(self).wf(),
        ensures
            final(self).wf(),
            ({
                let was = old(self).state();
                let target = queued_of(was) + index;
                &&& index >= was.similar ==> r is None && final(self).state() == was
                &&& index < was.similar ==> r == Some(was.upcoming[target]) && final(self).state() == after_change(
                    QueueState {
                        past: was.past + optional(was.current) + was.upcoming.subrange(0, target),
                        current: Some(was.upcoming[target]),
                        upcoming: was.upcoming.subrange(target + 1, was.upcoming.len() as int),
                        manual: 0,
                        similar: (was.similar - index - 1) as nat,
                        ..was
                    },
                )
            }),
    {
        if index >= self.similar {
            return None;
        }
        let size = self.upcoming.len();
        let target = self.queued() + index;
        let ghost was = self.state();
        select_upcoming(&mut self.past, &mut self.current, &mut self.upcoming, target);
        self.manual = 0;
        self.similar = self.similar - (index + 1);
        self.changed();
        match &self.current {
            Some(track) => Some(track.copy()),
            None => None,
        }
    }

    /// Puts every track of the queue back in order and plays it from the start, without the
    /// suggestions.
    pub fn rewind(&mut self) -> (r: Option<Track>)
        requires
            old(self).wf(),
        ensures
            final(self).wf(),
            ({
                let was = old(self).state();
                let tracks = was.past + optional(was.current) + was.upcoming.subrange(
                    0,
                    queued_of(was),
                );
                let emptied = QueueState {
                    past: Seq::empty(),
                    current: None,
                    upcoming: Seq::empty(),
                    manual: 0,
                    similar: 0,
                    ..was
                };
                &&& tracks.len() == 0 ==> r is None && final(self).state() == emptied
                &&& tracks.len() > 0 ==> r == Some(tracks[0]) && start_leaves(
                    emptied,
                    tracks,
                    0,
                    final(self).state(),
                )
            }),
    {
        let queued = self.queued();
        self.upcoming.truncate(queued);
        self.similar = 0;
        self.manual = 0;
        let ghost was_past = self.past@;
        let ghost was_current = self.current;
        let ghost was_upcoming = self.upcoming@;
        let mut tracks: Vec<Track> = Vec::new();
        std::mem::swap(&mut tracks, &mut self.past);
        let mut playing: Option<Track> = None;
        std::mem::swap(&mut playing, &mut self.current);
        match playing {
            Some(track) => tracks.push(track),
            None => {},
        }
        let mut rest: VecDeque<Track> = VecDeque::new();
        std::mem::swap(&mut rest, &mut self.upcoming);
        push_all(&mut tracks, rest);
        assert(tracks@ =~= was_past + optional(was_current) + was_upcoming);
        self.start(tracks, 0)
    }

    /// Plays the source again from what plays now, or from its start, as it was first laid out.
    /// Nothing changes when there is no source.
    pub fn reset(&mut self) -> (r: Option<Track>)
        requires
            old(self).wf(),
        ensures
            final(self).wf(),
            ({
                let was = old(self).state();
                &&& was.source.len() == 0 ==> r is None && final(self).state() == was
                &&& was.source.len() > 0 ==> exists|index: int|
                    0 <= index < was.source.len() && r == Some(was.source[index]) && start_leaves(
                        was,
                        was.source,
                        index,
                        final(self).state(),
                    ) && (match was.current {
                        Some(track) => if exists|j: int|
                            0 <= j < was.source.len() && (#[trigger] was.source[j])@ == track@ {
                            was.source[index]@ == track@ && forall|k: int|
                                0 <= k < index ==> (#[trigger] was.source[k])@ != track@
                        } else {
                            index == 0
                        },
                        None => index == 0,
                    })
            }),
    {
        if self.source.len() == 0 {
            return None;
        }
        let mut index: usize = 0;
        match &self.current {
            Some(track) => {
                let mut j: usize = 0;
                while j < self.source.len()
                    invariant
                        j <= self.source@.len(),
                        self.current == Some(*track),
                        forall|k: int| 0 <= k < j ==> (#[trigger] self.source@[k])@ != track@,
                    ensures
                        j <= self.source@.len(),
                        forall|k: int| 0 <= k < j ==> (#[trigger] self.source@[k])@ != track@,
                        j < self.source@.len() ==> self.source@[j as int]@ == track@,
                    decreases self.source@.len() - j,
                {
                    if self.source[j].same(track) {
                        break;
                    }
                    j = j + 1;
                }
                if j < self.source.len() {
                    index = j;
                }
            },
            None => {},
        }
        let ghost was = self.state();
        let source = copy_all(&self.source);
        let r = self.start(source, index);
        assert(0 <= index < was.source.len() && r == Some(was.source[index as int]) && start_leaves(
            was,
            was.source,
            index as int,
            self.state(),
        ));
        r
    }

    /// Whether the queue has left the source's order: played, playing and to play, in a row,
    /// are no longer the source track for track.
    pub fn reordered(&self) -> (r: bool)
        ensures
            ({
                let was = self.state();
                let row = was.past + optional(was.current) + was.upcoming;
                r == (was.source.len() > 0 && !(row.len() == was.source.len() && forall|i: int|
                    0 <= i < row.len() ==> (#[trigger] row[i])@ == was.source[i]@))
            }),
    {
        let ghost row = self.past@ + optional(self.current) + self.upcoming@;
        if self.source.len() == 0 {
            return false;
        }
        let playing: usize = if self.current.is_some() {
            1
        } else {
            0
        };
        let count = self.past.len() as u128 + playing as u128 + self.upcoming.len() as u128;
        if count != self.source.len() as u128 {
            return true;
        }
        let mut i: usize = 0;
        while i < self.past.len()
            invariant
                i <= self.past@.len(),
                row == self.past@ + optional(self.current) + self.upcoming@,
                row.len() == self.source@.len(),
                forall|k: int| 0 <= k < i ==> (#[trigger] row[k])@ == self.source@[k]@,
            decreases self.past@.len() - i,
        {
            assert(row[i as int] == self.past@[i as int]);
            if !self.past[i].same(&self.source[i]) {
                return true;
            }
            i = i + 1;
        }
        let mut at: usize = self.past.len();
        match &self.current {
            Some(track) => {
                assert(row[at as int] == *track);
                if !track.same(&self.source[at]) {
                    return true;
                }
                at = at + 1;
            },
            None => {},
        }
        let n = self.source.len();
        let mut j: usize = 0;
        while j < self.upcoming.len()
            invariant
                n == self.source@.len(),
                j <= self.upcoming@.len(),
                at == self.past@.len() + optional(self.current).len(),
                at + self.upcoming@.len() == self.source@.len(),
                row == self.past@ + optional(self.current) + self.upcoming@,
                row.len() == self.source@.len(),
                forall|k: int| 0 <= k < at + j ==> (#[trigger] row[k])@ == self.source@[k]@,
            decreases self.upcoming@.len() - j,
        {
            assert(row[at + j] == self.upcoming@[j as int]);
            if !self.upcoming[j].same(&self.source[at + j]) {
                return true;
            }
            j = j + 1;
        }
        false
    }

    /// Turns shuffle on or off. On shuffles what is to play after the hand-queued run, the
    /// source's tracks with it; off brings back the source's order after what plays. The
    /// hand-queued run and the suggestions stay where they are.
    pub fn set_shuffle(&mut self, on: bool)
        requires
            old(self).wf(),
        ensures
            final(self).wf(),
            ({
                let was = old(self).state();
                let m = was.manual as int;
                let q = queued_of(was);
                let middle = was.upcoming.subrange(m, q);
                let after = was.upcoming.subrange(q, was.upcoming.len() as int);
                &&& was.shuffle == on ==> final(self).state() == was
                &&& was.shuffle != on && !on ==> final(self).state() == after_change(
                    QueueState {
                        shuffle: on,
                        upcoming: was.upcoming.subrange(0, m) + restored(
                            middle,
                            was.source,
                            was.current,
                        ) + after,
                        ..was
                    },
                )
                &&& was.shuffle != on && on ==> exists|mixed: Seq<Track>|
                    mixed.to_multiset() == shuffle_pool(
                        middle,
                        was.source,
                        was.current,
                    ).to_multiset() && final(self).state() == after_change(
                        QueueState {
                            shuffle: on,
                            upcoming: was.upcoming.subrange(0, m) + mixed + after,
                            ..was
                        },
                    )
            }),
    {
        if self.shuffle == on {
            return;
        }
        let ghost was = self.state();
        self.shuffle = on;
        let queued = self.queued();
        let mut suggested = self.upcoming.split_off(queued);
        let mut manual = take_front(&mut self.upcoming, self.manual);
        assert(self.upcoming@ =~= was.upcoming.subrange(was.manual as int, queued_of(was)));
        assert(manual@ =~= was.upcoming.subrange(0, was.manual as int));
        assert(suggested@ =~= was.upcoming.subrange(queued_of(was), was.upcoming.len() as int));
        if on {
            scramble(&mut self.upcoming, &self.source, &self.current);
        } else {
            restore(&mut self.upcoming, &self.source, &self.current);
        }
        let ghost mixed = self.upcoming@;
        let mut middle: VecDeque<Track> = VecDeque::new();
        std::mem::swap(&mut middle, &mut self.upcoming);
        manual.append(&mut middle);
        manual.append(&mut suggested);
        assert(manual@ =~= was.upcoming.subrange(0, was.manual as int) + mixed
            + was.upcoming.subrange(queued_of(was), was.upcoming.len() as int));
        self.upcoming = manual;
        self.changed();
        proof {
            if on {
                assert(self.state() == after_change(
                    QueueState {
                        shuffle: on,
                        upcoming: was.upcoming.subrange(0, was.manual as int) + mixed
                            + was.upcoming.subrange(queued_of(was), was.upcoming.len() as int),
                        ..was
                    },
                ));
            }
        }
    }

    pub fn toggle_shuffle(&mut self)
        requires
            old(self).wf(),
        ensures
            final(self).wf(),
            final(self).state().shuffle == !old(self).state().shuffle,
    {
        let on = !self.shuffle;
        self.set_shuffle(on);
    }

    /// Keeps only the tracks `keep` keeps, everywhere in the queue, and drops the suggestions,
    /// which is what signing out of a provider asks. Answers whether anything changed.
    pub fn purge<F: Fn(&Track) -> bool>(&mut self, keep: F) -> (changed: bool)
        requires
            old(self).wf(),
            decides(keep),
        ensures
            final(self).wf(),
            ({
                let was = old(self).state();
                let kept_current = match was.current {
                    Some(track) => if kept(keep, track) {
                        Some(track)
                    } else {
                        None
                    },
                    None => None,
                };
                let left = QueueState {
                    past: sifted(was.past, keep),
                    current: kept_current,
                    upcoming: sifted(was.upcoming.subrange(0, queued_of(was)), keep),
                    source: sifted(was.source, keep),
                    manual: sifted(was.upcoming.subrange(0, was.manual as int), keep).len(),
                    similar: 0,
                    ..was
                };
                &&& changed == (was.similar > 0 || left.past.len() + optional(left.current).len()
                    + left.upcoming.len() + left.source.len() != was.past.len() + optional(
                    was.current,
                ).len() + queued_of(was) + was.source.len())
                &&& changed ==> final(self).state() == after_change(left)
                &&& !changed ==> final(self).state() == left
            }),
    {
        let ghost was = self.state();
        let suggested = self.similar > 0;
        let queued = self.queued();
        self.upcoming.truncate(queued);
        self.similar = 0;
        let ghost run = self.upcoming@.subrange(0, self.manual as int);
        assert(self.upcoming@ =~= was.upcoming.subrange(0, queued_of(was)));
        assert(run =~= was.upcoming.subrange(0, was.manual as int));
        let mut count: usize = 0;
        let mut i: usize = 0;
        while i < self.manual
            invariant
                i <= self.manual <= self.upcoming@.len(),
                decides(keep),
                run == self.upcoming@.subrange(0, self.manual as int),
                count == sifted(run.subrange(0, i as int), keep).len(),
                count <= i,
            decreases self.manual - i,
        {
            let wanted = keep(&self.upcoming[i]);
            proof {
                reveal(Seq::filter);
                assert(run.subrange(0, i + 1).drop_last() =~= run.subrange(0, i as int));
                assert(run.subrange(0, i + 1).last() == self.upcoming@[i as int]);
            }
            if wanted {
                count = count + 1;
            }
            i = i + 1;
        }
        assert(run.subrange(0, i as int) =~= run);
        self.manual = count;
        let ghost whole = self.upcoming@;
        proof {
            assert(whole =~= run + whole.subrange(run.len() as int, whole.len() as int));
            Seq::filter_distributes_over_add(
                run,
                whole.subrange(run.len() as int, whole.len() as int),
                |item: Track| kept(keep, item),
            );
        }
        let sifted_any = sift(
            &mut self.past,
            &mut self.current,
            &mut self.upcoming,
            &mut self.source,
            keep,
        );
        if suggested || sifted_any {
            self.changed();
            true
        } else {
            false
        }
    }

    /// Puts `tracks` in as the suggestions, in place of any there were.
    pub fn suggest(&mut self, tracks: Vec<Track>)
        requires
            old(self).wf(),
            queued_of(old(self).state()) + tracks@.len() <= usize::MAX,
        ensures
            final(self).wf(),
            ({
                let was = old(self).state();
                final(self).state() == after_change(
                    QueueState {
                        upcoming: was.upcoming.subrange(0, queued_of(was)) + tracks@,
                        similar: tracks@.len(),
                        ..was
                    },
                )
            }),
    {
        let queued = self.queued();
        self.upcoming.truncate(queued);
        self.similar = tracks.len();
        let mut more = deque_of(tracks);
        self.upcoming.append(&mut more);
        self.changed();
    }

    /// Adds suggestions after the ones already there, for a station topped up before the queue
    /// has played through it.
    pub fn extend_similar(&mut self, tracks: Vec<Track>)
        requires
            old(self).wf(),
            old(self).state().upcoming.len() + tracks@.len() <= usize::MAX,
        ensures
            final(self).wf(),
            ({
                let was = old(self).state();
                &&& tracks@.len() == 0 ==> final(self).state() == was
                &&& tracks@.len() > 0 ==> final(self).state() == after_change(
                    QueueState {
                        upcoming: was.upcoming + tracks@,
                        similar: was.similar + tracks@.len(),
                        ..was
                    },
                )
            }),
    {
        if tracks.len() == 0 {
            return;
        }
        self.similar = self.similar + tracks.len();
        let mut more = deque_of(tracks);
        self.upcoming.append(&mut more);
        self.changed();
    }

    /// Drops the suggestions.
    pub fn clear_similar(&mut self)
        requires
            old(self).wf(),
        ensures
            final(self).wf(),
            ({
                let was = old(self).state();
                &&& was.similar == 0 ==> final(self).state() == was
                &&& was.similar > 0 ==> final(self).state() == after_change(
                    QueueState {
                        upcoming: was.upcoming.subrange(0, queued_of(was)),
                        similar: 0,
                        ..was
                    },
                )
            }),
    {
        if self.similar == 0 {
            return;
        }
        let queued = self.queued();
        self.upcoming.truncate(queued);
        self.similar = 0;
        self.changed();
    }

    /// Drops what is queued, keeping the suggestions.
    pub fn clear_upcoming(&mut self)
        requires
            old(self).wf(),
        ensures
            final(self).wf(),
            ({
                let was = old(self).state();
                &&& queued_of(was) == 0 ==> final(self).state() == was
                &&& queued_of(was) > 0 ==> final(self).state() == after_change(
                    QueueState {
                        upcoming: was.upcoming.subrange(queued_of(was), was.upcoming.len() as int),
                        manual: 0,
                        ..was
                    },
                )
            }),
    {
        let queued = self.queued();
        if queued == 0 {
            return;
        }
        let _ = take_front(&mut self.upcoming, queued);
        self.manual = 0;
        self.changed();
    }

    /// Empties the queue and forgets its source.
    pub fn clear(&mut self)
        ensures
            final(self).wf(),
            final(self).state() == after_change(
                QueueState {
                    past: Seq::empty(),
                    current: None,
                    upcoming: Seq::empty(),
                    source: Seq::empty(),
                    manual: 0,
                    similar: 0,
                    ..old(self).state()
                },
            ),
    {
        self.past.clear();
        self.current = None;
        self.upcoming.clear();
        self.source.clear();
        self.manual = 0;
        self.similar = 0;
        self.changed();
    }

    /// Whether the queue holds nothing at all.
    pub fn blank(&self) -> (r: bool)
        ensures
            r == (self.state().past.len() == 0 && self.state().current is None
                && self.state().upcoming.len() == 0),
    {
        self.past.len() == 0 && self.current.is_none() && self.upcoming.len() == 0
    }

    /// What to keep of the queue for the next run, for the provider `provider`: the last
    /// `KEPT_PAST` played, what plays, and the first `KEPT_UPCOMING` queued, each only where it
    /// has an id; and how many of those queued were queued by hand.
    pub fn kept(&self, provider: &str) -> (r: Kept)
        requires
            self.wf(),
        ensures
            r.provider@ == provider@,
            (r.past@, r.current, r.upcoming@, r.manual as nat) == kept_spec(self.state()),
            ({
                let state = self.state();
                let past = state.past;
                let queued = state.upcoming.subrange(0, queued_of(state));
                let behind = if past.len() < KEPT_PAST {
                    past.len() as int
                } else {
                    KEPT_PAST as int
                };
                let ahead = if queued.len() < KEPT_UPCOMING {
                    queued.len() as int
                } else {
                    KEPT_UPCOMING as int
                };
                let by_hand = if state.manual < ahead {
                    state.manual as int
                } else {
                    ahead
                };
                &&& r.past@ == id_tracks(past.subrange(past.len() - behind, past.len() as int))
                &&& r.current == match state.current {
                    Some(track) => if has_id(track) {
                        Some(track)
                    } else {
                        None
                    },
                    None => None,
                }
                &&& r.upcoming@ == id_tracks(queued.take(ahead))
                &&& r.manual == id_tracks(queued.take(by_hand)).len()
            }),
    {
        let behind = if self.past.len() < KEPT_PAST {
            self.past.len()
        } else {
            KEPT_PAST
        };
        let past = with_ids(&self.past, self.past.len() - behind, self.past.len());
        let current = match &self.current {
            Some(track) => if track.id.is_some() {
                Some(track.copy())
            } else {
                None
            },
            None => None,
        };
        let queued = self.queued();
        let ahead = if queued < KEPT_UPCOMING {
            queued
        } else {
            KEPT_UPCOMING
        };
        let by_hand = if self.manual < ahead {
            self.manual
        } else {
            ahead
        };
        let upcoming = with_ids(&self.upcoming, 0, ahead);
        let manual = with_ids(&self.upcoming, 0, by_hand).len();
        proof {
            let all = self.state().upcoming;
            let queued_seq = all.subrange(0, queued as int);
            assert(all.subrange(0, ahead as int) =~= queued_seq.take(ahead as int));
            assert(all.subrange(0, by_hand as int) =~= queued_seq.take(by_hand as int));
        }
        Kept { provider: provider.to_owned(), past, current, upcoming, manual }
    }

    /// What the queue leaves for the next run: nothing when no provider is signed in or the
    /// queue holds nothing at all, and otherwise what `kept` keeps for that provider.
    pub fn remembered(&self, provider: &Option<String>) -> (r: Option<Kept>)
        requires
            self.wf(),
        ensures
            match provider {
                Some(slug) => {
                    let state = self.state();
                    if state.past.len() == 0 && state.current is None && state.upcoming.len() == 0 {
                        r is None
                    } else {
                        r matches Some(kept) && kept.provider@ == slug@ && (
                            kept.past@,
                            kept.current,
                            kept.upcoming@,
                            kept.manual as nat,
                        ) == kept_spec(state)
                    }
                },
                None => r is None,
            },
    {
        match provider {
            Some(slug) => if self.blank() {
                None
            } else {
                Some(self.kept(slug.as_str()))
            },
            None => None,
        }
    }

    /// Picks up a queue kept from an earlier run: its history, what played, and what was queued
    /// with the count of those queued by hand, which cannot exceed what is queued. The source
    /// becomes all of them in order, and there are no suggestions.
    pub fn revive(
        &mut self,
        past: Vec<Track>,
        current: Option<Track>,
        upcoming: Vec<Track>,
        manual: usize,
    ) -> (r: Option<Track>)
        ensures
            final(self).wf(),
            r == current,
            final(self).state() == revived_spec(
                old(self).state(),
                past@,
                current,
                upcoming@,
                manual as nat,
            ),
            final(self).state() == after_change(
                QueueState {
                    past: past@,
                    current,
                    upcoming: upcoming@,
                    source: past@ + optional(current) + upcoming@,
                    manual: if manual < upcoming@.len() {
                        manual as nat
                    } else {
                        upcoming@.len()
                    },
                    similar: 0,
                    ..old(self).state()
                },
            ),
    {
        let mut source = copy_all(&past);
        let ghost before = source@;
        let answer = match &current {
            Some(track) => {
                source.push(track.copy());
                Some(track.copy())
            },
            None => None,
        };
        assert(source@ == before + optional(current));
        let ghost with_current = source@;
        let mut rest = copy_all(&upcoming);
        source.append(&mut rest);
        self.manual = if manual < upcoming.len() {
            manual
        } else {
            upcoming.len()
        };
        self.past = past;
        self.current = current;
        self.upcoming = deque_of(upcoming);
        self.source = source;
        self.similar = 0;
        self.changed();
        answer
    }

    /// Inserts tracks `gap` places into what is queued. A gap inside or right after the
    /// hand-queued run joins that run, so a drop at the very top always plays next.
    pub fn insert_upcoming(&mut self, gap: usize, tracks: Vec<Track>)
        requires
            old(self).wf(),
            old(self).state().upcoming.len() + tracks@.len() <= usize::MAX,
        ensures
            final(self).wf(),
            ({
                let was = old(self).state();
                let at = if gap < queued_of(was) {
                    gap as int
                } else {
                    queued_of(was)
                };
                final(self).state() == after_change(
                    QueueState {
                        upcoming: was.upcoming.subrange(0, at) + tracks@ + was.upcoming.subrange(
                            at,
                            was.upcoming.len() as int,
                        ),
                        manual: if at <= was.manual {
                            was.manual + tracks@.len()
                        } else {
                            was.manual
                        },
                        ..was
                    },
                )
            }),
    {
        let queued = self.queued();
        let at = if gap < queued {
            gap
        } else {
            queued
        };
        let count = tracks.len();
        insert_all(&mut self.upcoming, at, tracks);
        if at <= self.manual {
            self.manual = self.manual + count;
        }
        self.changed();
    }

    /// Queues tracks after the ones already queued by hand, ahead of the rest of the source.
    pub fn append_all(&mut self, tracks: Vec<Track>)
        requires
            old(self).wf(),
            old(self).state().upcoming.len() + tracks@.len() <= usize::MAX,
        ensures
            final(self).wf(),
            ({
                let was = old(self).state();
                let m = was.manual as int;
                final(self).state() == after_change(
                    QueueState {
                        upcoming: was.upcoming.subrange(0, m) + tracks@ + was.upcoming.subrange(
                            m,
                            was.upcoming.len() as int,
                        ),
                        manual: was.manual + tracks@.len(),
                        ..was
                    },
                )
            }),
    {
        let manual = self.manual;
        self.insert_upcoming(manual, tracks);
    }

    /// Queues a track after the ones already queued by hand, ahead of the rest of the source.
    pub fn append(&mut self, track: Track)
        requires
            old(self).wf(),
            old(self).state().upcoming.len() < usize::MAX,
        ensures
            final(self).wf(),
            ({
                let was = old(self).state();
                let m = was.manual as int;
                final(self).state() == after_change(
                    QueueState {
                        upcoming: was.upcoming.insert(m, track),
                        manual: was.manual + 1,
                        ..was
                    },
                )
            }),
    {
        let ghost was = self.state();
        let mut tracks: Vec<Track> = Vec::new();
        tracks.push(track);
        self.append_all(tracks);
        assert(self.state().upcoming =~= was.upcoming.insert(was.manual as int, track));
    }

    /// Queues tracks after everything queued, so they play once the source has run out.
    pub fn append_last_all(&mut self, tracks: Vec<Track>)
        requires
            old(self).wf(),
            old(self).state().upcoming.len() + tracks@.len() <= usize::MAX,
        ensures
            final(self).wf(),
            ({
                let was = old(self).state();
                let q = queued_of(was);
                final(self).state() == after_change(
                    QueueState {
                        upcoming: was.upcoming.subrange(0, q) + tracks@ + was.upcoming.subrange(
                            q,
                            was.upcoming.len() as int,
                        ),
                        ..was
                    },
                )
            }),
    {
        let at = self.queued();
        insert_all(&mut self.upcoming, at, tracks);
        self.changed();
    }

    /// Queues a track after everything queued.
    pub fn append_last(&mut self, track: Track)
        requires
            old(self).wf(),
            old(self).state().upcoming.len() < usize::MAX,
        ensures
            final(self).wf(),
            ({
                let was = old(self).state();
                final(self).state() == after_change(
                    QueueState { upcoming: was.upcoming.insert(queued_of(was), track), ..was },
                )
            }),
    {
        let ghost was = self.state();
        let mut tracks: Vec<Track> = Vec::new();
        tracks.push(track);
        self.append_last_all(tracks);
        assert(self.state().upcoming =~= was.upcoming.insert(queued_of(was), track));
    }

    /// Carries the source on with `tracks`, which play after everything queued.
    pub fn extend_context(&mut self, tracks: Vec<Track>)
        requires
            old(self).wf(),
            old(self).state().upcoming.len() + tracks@.len() <= usize::MAX,
            old(self).state().source.len() + tracks@.len() <= usize::MAX,
        ensures
            final(self).wf(),
            ({
                let was = old(self).state();
                let q = queued_of(was);
                final(self).state() == after_change(
                    QueueState {
                        upcoming: was.upcoming.subrange(0, q) + tracks@ + was.upcoming.subrange(
                            q,
                            was.upcoming.len() as int,
                        ),
                        source: was.source + tracks@,
                        ..was
                    },
                )
            }),
    {
        let mut copies = copy_all(&tracks);
        self.source.append(&mut copies);
        let at = self.queued();
        insert_all(&mut self.upcoming, at, tracks);
        self.changed();
    }

    /// Queues tracks to play right after the current one, ahead of anything queued before.
    pub fn prepend_all(&mut self, tracks: Vec<Track>)
        requires
            old(self).wf(),
            old(self).state().upcoming.len() + tracks@.len() <= usize::MAX,
        ensures
            final(self).wf(),
            ({
                let was = old(self).state();
                final(self).state() == after_change(
                    QueueState {
                        upcoming: tracks@ + was.upcoming,
                        manual: was.manual + tracks@.len(),
                        ..was
                    },
                )
            }),
    {
        let ghost was = self.upcoming@;
        let ghost added = tracks@;
        self.manual = self.manual + tracks.len();
        insert_all(&mut self.upcoming, 0, tracks);
        assert(self.upcoming@ =~= added + was);
        self.changed();
    }

    /// Queues a track to play right after the current one.
    pub fn prepend(&mut self, track: Track)
        requires
            old(self).wf(),
            old(self).state().upcoming.len() < usize::MAX,
        ensures
            final(self).wf(),
            ({
                let was = old(self).state();
                final(self).state() == after_change(
                    QueueState {
                        upcoming: seq![track] + was.upcoming,
                        manual: was.manual + 1,
                        ..was
                    },
                )
            }),
    {
        let mut tracks: Vec<Track> = Vec::new();
        tracks.push(track);
        self.prepend_all(tracks);
    }

    /// Moves an upcoming track. Landing inside or right after the hand-queued run joins it, and
    /// leaving that run for the source's tracks leaves it; the runs keep their lengths
    /// otherwise. Nothing changes when either index is outside the list or they are the same.
    /// A track from outside the hand-queued run joins it only while some of the source's
    /// tracks are left, so that the hand-queued run and the suggestions never overlap.
    pub fn move_upcoming(&mut self, from: usize, to: usize)
        requires
            old(self).wf(),
            ({
                let was = old(self).state();
                from < was.upcoming.len() && to < was.upcoming.len() && from != to && from
                    >= was.manual && to <= was.manual ==> was.manual < queued_of(was)
            }),
        ensures
            final(self).wf(),
            ({
                let was = old(self).state();
                let left = if from < was.manual {
                    was.manual - 1
                } else {
                    was.manual as int
                };
                &&& !(from < was.upcoming.len() && to < was.upcoming.len() && from != to)
                    ==> final(self).state() == was
                &&& from < was.upcoming.len() && to < was.upcoming.len() && from != to
                    ==> final(self).state() == after_change(
                    QueueState {
                        upcoming: moved(was.upcoming, from as int, to as int),
                        manual: (if to <= left {
                            left + 1
                        } else {
                            left
                        }) as nat,
                        ..was
                    },
                )
            }),
    {
        let size = self.upcoming.len();
        let from_manual = from < self.manual;
        if !move_item(&mut self.upcoming, from, to) {
            return;
        }
        if from_manual {
            self.manual = self.manual - 1;
        }
        if to <= self.manual {
            self.manual = self.manual + 1;
        }
        self.changed();
    }

    /// Moves an upcoming track into a gap among the queued tracks, as a drag and drop does.
    pub fn move_upcoming_to_gap(&mut self, from: usize, gap: usize)
        requires
            old(self).wf(),
            ({
                let was = old(self).state();
                let to = gap_target_spec(from as int, gap as int, queued_of(was));
                from < was.upcoming.len() && to < was.upcoming.len() && from != to && from
                    >= was.manual && to <= was.manual ==> was.manual < queued_of(was)
            }),
        ensures
            final(self).wf(),
            ({
                let was = old(self).state();
                let to = gap_target_spec(from as int, gap as int, queued_of(was));
                let left = if from < was.manual {
                    was.manual - 1
                } else {
                    was.manual as int
                };
                &&& !(from < was.upcoming.len() && to < was.upcoming.len() && from != to)
                    ==> final(self).state() == was
                &&& from < was.upcoming.len() && to < was.upcoming.len() && from != to
                    ==> final(self).state() == after_change(
                    QueueState {
                        upcoming: moved(was.upcoming, from as int, to),
                        manual: (if to <= left {
                            left + 1
                        } else {
                            left
                        }) as nat,
                        ..was
                    },
                )
            }),
    {
        let queued = self.queued();
        let to = gap_target(from, gap, queued);
        self.move_upcoming(from, to);
    }

    /// Takes the queued track at `index` out. Nothing changes past what is queued.
    pub fn remove_upcoming(&mut self, index: usize)
        requires
            old(self).wf(),
        ensures
            final(self).wf(),
            ({
                let was = old(self).state();
                &&& index >= queued_of(was) ==> final(self).state() == was
                &&& index < queued_of(was) ==> final(self).state() == after_change(
                    QueueState {
                        upcoming: was.upcoming.remove(index as int),
                        manual: if index < was.manual {
                            (was.manual - 1) as nat
                        } else {
                            was.manual
                        },
                        ..was
                    },
                )
            }),
    {
        if index < self.queued() {
            self.upcoming.remove(index);
            if index < self.manual {
                self.manual = self.manual - 1;
            }
            self.changed();
        }
    }

    /// Takes the suggestion at `index` out. Nothing changes past the suggestions.
    pub fn remove_similar(&mut self, index: usize)
        requires
            old(self).wf(),
        ensures
            final(self).wf(),
            ({
                let was = old(self).state();
                &&& index >= was.similar ==> final(self).state() == was
                &&& index < was.similar ==> final(self).state() == after_change(
                    QueueState {
                        upcoming: was.upcoming.remove(queued_of(was) + index),
                        similar: (was.similar - 1) as nat,
                        ..was
                    },
                )
            }),
    {
        if index >= self.similar {
            return;
        }
        let size = self.upcoming.len();
        let at = self.queued() + index;
        self.upcoming.remove(at);
        self.similar = self.similar - 1;
        self.changed();
    }

    /// Every id in the history, what plays and what is to play, each once.
    pub fn ids(&self) -> (r: Vec<String>)
        ensures
            each_once(r@),
            forall|x: Seq<char>| #[trigger]
                among(r@, x) <==> carried(
                    self.state().past + optional(self.state().current) + self.state().upcoming,
                    (self.state().past + optional(self.state().current)
                        + self.state().upcoming).len() as int,
                    x,
                ),
    {
        let ghost row = self.past@ + optional(self.current) + self.upcoming@;
        let mut found: Vec<String> = Vec::new();
        let mut i: usize = 0;
        let ghost mut walked: int = 0;
        while i < self.past.len()
            invariant
                i <= self.past@.len(),
                walked == i,
                row == self.past@ + optional(self.current) + self.upcoming@,
                each_once(found@),
                forall|x: Seq<char>| #[trigger] among(found@, x) <==> carried(row, walked, x),
            decreases self.past@.len() - i,
        {
            assert(row[i as int] == self.past@[i as int]);
            proof {
                lemma_carried_step(row, walked);
            }
            gather_ids(&mut found, &self.past[i]);
            i = i + 1;
            proof {
                walked = walked + 1;
            }
        }
        match &self.current {
            Some(track) => {
                assert(row[walked] == *track);
                proof {
                    lemma_carried_step(row, walked);
                }
                gather_ids(&mut found, track);
                proof {
                    walked = walked + 1;
                }
            },
            None => {},
        }
        let mut u: usize = 0;
        while u < self.upcoming.len()
            invariant
                u <= self.upcoming@.len(),
                walked == self.past@.len() + optional(self.current).len() + u,
                row == self.past@ + optional(self.current) + self.upcoming@,
                each_once(found@),
                forall|x: Seq<char>| #[trigger] among(found@, x) <==> carried(row, walked, x),
            decreases self.upcoming@.len() - u,
        {
            assert(row[walked] == self.upcoming@[u as int]);
            proof {
                lemma_carried_step(row, walked);
            }
            gather_ids(&mut found, &self.upcoming[u]);
            u = u + 1;
            proof {
                walked = walked + 1;
            }
        }
        found
    }

    /// Takes every track that carries one of `ids` out of the queue and its source, and
    /// answers whether what plays was among them. A hand-queued track that goes leaves the
    /// hand-queued run, and a suggestion that goes leaves the suggestions.
    pub fn remove_tracks(&mut self, ids: &[String]) -> (current_removed: bool)
        requires
            old(self).wf(),
        ensures
            final(self).wf(),
            ({
                let was = old(self).state();
                let gone = match was.current {
                    Some(track) => listed(ids@, track),
                    None => false,
                };
                let left = QueueState {
                    past: unlisted(was.past, ids@),
                    current: if gone {
                        None
                    } else {
                        was.current
                    },
                    upcoming: unlisted(was.upcoming, ids@),
                    source: unlisted(was.source, ids@),
                    manual: unlisted(was.upcoming.subrange(0, was.manual as int), ids@).len(),
                    similar: unlisted(
                        was.upcoming.subrange(queued_of(was), was.upcoming.len() as int),
                        ids@,
                    ).len(),
                    ..was
                };
                let shrank = left.past.len() + optional(left.current).len() + left.upcoming.len()
                    != was.past.len() + optional(was.current).len() + was.upcoming.len();
                &&& current_removed == (ids@.len() > 0 && gone)
                &&& ids@.len() == 0 ==> final(self).state() == was
                &&& ids@.len() > 0 && (gone || shrank) ==> final(self).state() == after_change(left)
                &&& ids@.len() > 0 && !(gone || shrank) ==> final(self).state() == left
            }),
    {
        if ids.len() == 0 {
            return false;
        }
        let ghost was = self.state();
        let gone = match &self.current {
            Some(track) => is_listed(ids, track),
            None => false,
        };
        let past_before = self.past.len();
        let upcoming_before = self.upcoming.len();
        let size = self.upcoming.len();
        let ghost run = self.upcoming@.subrange(0, self.manual as int);
        let mut count: usize = 0;
        let mut i: usize = 0;
        while i < self.manual
            invariant
                i <= self.manual <= self.upcoming@.len(),
                run == self.upcoming@.subrange(0, self.manual as int),
                count == unlisted(run.subrange(0, i as int), ids@).len(),
                count <= i,
            decreases self.manual - i,
        {
            let wanted = !is_listed(ids, &self.upcoming[i]);
            proof {
                reveal(Seq::filter);
                assert(run.subrange(0, i + 1).drop_last() =~= run.subrange(0, i as int));
                assert(run.subrange(0, i + 1).last() == self.upcoming@[i as int]);
            }
            if wanted {
                count = count + 1;
            }
            i = i + 1;
        }
        assert(run.subrange(0, i as int) =~= run);
        let queued = self.queued();
        let ghost tail = self.upcoming@.subrange(queued as int, self.upcoming@.len() as int);
        let mut kept: usize = 0;
        let mut k: usize = queued;
        while k < self.upcoming.len()
            invariant
                queued <= k <= self.upcoming@.len(),
                tail == self.upcoming@.subrange(queued as int, self.upcoming@.len() as int),
                kept == unlisted(tail.subrange(0, k - queued), ids@).len(),
                kept <= k - queued,
            decreases self.upcoming@.len() - k,
        {
            let wanted = !is_listed(ids, &self.upcoming[k]);
            proof {
                reveal(Seq::filter);
                assert(tail.subrange(0, k + 1 - queued).drop_last() =~= tail.subrange(
                    0,
                    k - queued,
                ));
                assert(tail.subrange(0, k + 1 - queued).last() == self.upcoming@[k as int]);
            }
            if wanted {
                kept = kept + 1;
            }
            k = k + 1;
        }
        assert(tail.subrange(0, k - queued) =~= tail);
        proof {
            let q = queued_of(was);
            let head = was.upcoming.subrange(0, q);
            let pred = |track: Track| !listed(ids@, track);
            assert(was.upcoming =~= head + tail);
            assert(head =~= run + head.subrange(run.len() as int, q));
            Seq::filter_distributes_over_add(head, tail, pred);
            Seq::filter_distributes_over_add(run, head.subrange(run.len() as int, q), pred);
        }
        drop_listed(&mut self.past, ids);
        if gone {
            self.current = None;
        }
        self.manual = count;
        self.similar = kept;
        drop_listed_deque(&mut self.upcoming, ids);
        drop_listed(&mut self.source, ids);
        proof {
            was.past.lemma_filter_len(|track: Track| !listed(ids@, track));
            was.upcoming.lemma_filter_len(|track: Track| !listed(ids@, track));
        }
        if gone || self.past.len() != past_before || self.upcoming.len() != upcoming_before {
            self.changed();
        }
        gone
    }
}


/// A filter that keeps nothing leaves nothing.
proof fn lemma_filter_keeps_none<T>(items: Seq<T>, keep: spec_fn(T) -> bool)
    requires
        forall|i: int| 0 <= i < items.len() ==> !keep(#[trigger] items[i]),
    ensures
        items.filter(keep) == Seq::<T>::empty(),
    decreases items.len(),
{
    reveal(Seq::filter);
    if items.len() > 0 {
        lemma_filter_keeps_none(items.drop_last(), keep);
    }
}

/// Every track `skipping` keeps is one of the source's.
proof fn lemma_skipping_within(source: Seq<Track>, playing: Option<Seq<char>>)
    ensures
        forall|i: int|
            0 <= i < skipping(source, playing).len() ==> source.contains(
                #[trigger] skipping(source, playing)[i],
            ),
    decreases source.len(),
{
    if source.len() > 0 {
        let rest = source.drop_first();
        lemma_skipping_within(rest, None);
        lemma_skipping_within(rest, playing);
        assert forall|i: int|
            0 <= i < skipping(source, playing).len() implies source.contains(
            #[trigger] skipping(source, playing)[i],
        ) by {
            let out = skipping(source, playing);
            if playing is Some && source[0]@.id == playing {
                let x = skipping(rest, None)[i];
                let j = choose|j: int| 0 <= j < rest.len() && rest[j] == x;
                assert(source[j + 1] == x);
            } else if i == 0 {
                assert(source[0] == out[0]);
            } else {
                assert(out[i] == skipping(rest, playing)[i - 1]);
                let x = out[i];
                let j = choose|j: int| 0 <= j < rest.len() && rest[j] == x;
                assert(source[j + 1] == x);
            }
        }
    }
}

/// Shuffling off after shuffling on gives the source's order back: when every track of the
/// source has an id and everything that was to play is one of the source's, whatever order
/// shuffling picked, restoring it gives what follows the current track in the source.
pub proof fn lemma_restore_undoes_scramble(
    upcoming: Seq<Track>,
    source: Seq<Track>,
    current: Option<Track>,
    mixed: Seq<Track>,
)
    requires
        forall|j: int| 0 <= j < source.len() ==> (#[trigger] source[j])@.id is Some,
        forall|i: int| 0 <= i < upcoming.len() ==> known(source, (#[trigger] upcoming[i])@.id),
        mixed.to_multiset() == shuffle_pool(upcoming, source, current).to_multiset(),
    ensures
        restored(mixed, source, current) == source_tail(source, current),
{
    broadcast use vstd::seq_lib::group_to_multiset_ensures;

    let pool = shuffle_pool(upcoming, source, current);
    let keep = |track: Track| !known(source, track@.id);
    lemma_filter_keeps_none(upcoming, keep);
    lemma_skipping_within(source, playing_id(current));
    let skipped = skipping(source, playing_id(current));
    assert(strangers(upcoming, source) == Seq::<Track>::empty());
    assert(pool =~= skipped);
    assert forall|i: int| 0 <= i < mixed.len() implies !keep(#[trigger] mixed[i]) by {
        let x = mixed[i];
        assert(mixed.contains(x));
        assert(mixed.to_multiset().count(x) > 0);
        assert(pool.contains(x));
        let k = choose|k: int| 0 <= k < pool.len() && pool[k] == x;
        assert(source.contains(skipped[k]));
        let j = choose|j: int| 0 <= j < source.len() && source[j] == x;
        assert(source[j]@.id is Some);
        assert(known(source, x@.id));
    }
    lemma_filter_keeps_none(mixed, keep);
    assert(restored(mixed, source, current) =~= source_tail(source, current));
}

/// Jumping back into the history or ahead in the queue never reorders anything: the history,
/// what plays and what is to play, read in a row, are the same tracks in the same order.
pub proof fn lemma_jumps_keep_the_row<T>(
    past: Seq<T>,
    current: Option<T>,
    upcoming: Seq<T>,
    index: int,
)
    ensures
        0 <= index < past.len() ==> past.subrange(0, index) + optional(Some(past[index])) + (
        past.subrange(index + 1, past.len() as int) + optional(current) + upcoming) == past
            + optional(current) + upcoming,
        0 <= index < upcoming.len() ==> (past + optional(current) + upcoming.subrange(0, index))
            + optional(Some(upcoming[index])) + upcoming.subrange(index + 1, upcoming.len() as int)
            == past + optional(current) + upcoming,
{
    if 0 <= index < past.len() {
        assert(past.subrange(0, index) + optional(Some(past[index])) + (past.subrange(
            index + 1,
            past.len() as int,
        ) + optional(current) + upcoming) =~= past + optional(current) + upcoming);
    }
    if 0 <= index < upcoming.len() {
        assert((past + optional(current) + upcoming.subrange(0, index)) + optional(
            Some(upcoming[index]),
        ) + upcoming.subrange(index + 1, upcoming.len() as int) =~= past + optional(current)
            + upcoming);
    }
}

/// Moving an item back where it came from undoes the move, and a move keeps every item.
pub proof fn lemma_move_back_undoes_a_move<T>(items: Seq<T>, from: int, to: int)
    requires
        0 <= from < items.len(),
        0 <= to < items.len(),
    ensures
        moved(moved(items, from, to), to, from) == items,
        moved(items, from, to).to_multiset() == items.to_multiset(),
{
    let once = moved(items, from, to);
    let rest = items.remove(from);
    assert(once[to] == items[from]);
    assert(once.remove(to) =~= rest);
    assert(moved(once, to, from) =~= items);
    assert(once.to_multiset() =~= rest.to_multiset().insert(items[from])) by {
        broadcast use vstd::seq_lib::group_to_multiset_ensures;

        assert(once =~= rest.insert(to, items[from]));
    }
    assert(rest.to_multiset().insert(items[from]) =~= items.to_multiset()) by {
        broadcast use vstd::seq_lib::group_to_multiset_ensures;

        assert(rest.insert(from, items[from]) =~= items);
    }
}

/// A gap always lands inside a list that is not empty.
pub proof fn lemma_gap_lands_inside(from: int, gap: int, len: int)
    requires
        0 <= from,
        0 <= gap,
        0 < len,
    ensures
        0 <= gap_target_spec(from, gap, len) < len || (gap_target_spec(from, gap, len) == len
            && gap >= len && from >= len),
{
}


/// What is kept of a queue in `state` for the next run: the last `KEPT_PAST` played, what plays,
/// and the first `KEPT_UPCOMING` queued, each only where it has an id; and how many of those
/// queued were queued by hand.
pub open spec fn kept_spec(state: QueueState) -> (Seq<Track>, Option<Track>, Seq<Track>, nat) {
    let past = state.past;
    let queued = state.upcoming.subrange(0, queued_of(state));
    let behind = if past.len() < KEPT_PAST {
        past.len() as int
    } else {
        KEPT_PAST as int
    };
    let ahead = if queued.len() < KEPT_UPCOMING {
        queued.len() as int
    } else {
        KEPT_UPCOMING as int
    };
    let by_hand = if state.manual < ahead {
        state.manual as int
    } else {
        ahead
    };
    (
        id_tracks(past.subrange(past.len() - behind, past.len() as int)),
        match state.current {
            Some(track) => if has_id(track) {
                Some(track)
            } else {
                None
            },
            None => None,
        },
        id_tracks(queued.take(ahead)),
        id_tracks(queued.take(by_hand)).len(),
    )
}

/// A queue in `state` after a kept one is picked up.
pub open spec fn revived_spec(
    state: QueueState,
    past: Seq<Track>,
    current: Option<Track>,
    upcoming: Seq<Track>,
    manual: nat,
) -> QueueState {
    after_change(
        QueueState {
            past,
            current,
            upcoming,
            source: past + optional(current) + upcoming,
            manual: if manual < upcoming.len() {
                manual
            } else {
                upcoming.len()
            },
            similar: 0,
            ..state
        },
    )
}

/// Keeping only the tracks with an id of tracks that all have one keeps them all.
proof fn lemma_filter_all_ids(tracks: Seq<Track>)
    requires
        forall|i: int| 0 <= i < tracks.len() ==> has_id(#[trigger] tracks[i]),
    ensures
        id_tracks(tracks) == tracks,
    decreases tracks.len(),
{
    reveal(Seq::filter);
    if tracks.len() > 0 {
        let rest = tracks.drop_last();
        assert forall|i: int| 0 <= i < rest.len() implies has_id(#[trigger] rest[i]) by {
            assert(rest[i] == tracks[i]);
        }
        lemma_filter_all_ids(rest);
        assert(has_id(tracks[tracks.len() - 1]));
        assert(rest.push(tracks.last()) =~= tracks);
    }
}

/// The tracks kept as having an id all have one, and are no more than were looked at.
proof fn lemma_filter_ids(tracks: Seq<Track>)
    ensures
        forall|i: int|
            0 <= i < id_tracks(tracks).len() ==> has_id(
                #[trigger] id_tracks(tracks)[i],
            ),
        id_tracks(tracks).len() <= tracks.len(),
    decreases tracks.len(),
{
    reveal(Seq::filter);
    if tracks.len() > 0 {
        lemma_filter_ids(tracks.drop_last());
        let before = id_tracks(tracks.drop_last());
        if has_id(tracks.last()) {
            assert forall|i: int| 0 <= i < before.push(tracks.last()).len() implies has_id(
                #[trigger] before.push(tracks.last())[i],
            ) by {
                if i < before.len() {
                    assert(before.push(tracks.last())[i] == before[i]);
                }
            }
        }
    }
}

/// Of a longer first part, at least as many tracks have an id.
proof fn lemma_filter_prefix(tracks: Seq<Track>, a: int, b: int)
    requires
        0 <= a <= b <= tracks.len(),
    ensures
        id_tracks(tracks.take(a)).len() <= id_tracks(tracks.take(b)).len(),
    decreases b - a,
{
    reveal(Seq::filter);
    if a < b {
        lemma_filter_prefix(tracks, a, b - 1);
        assert(tracks.take(b).drop_last() =~= tracks.take(b - 1));
    }
}

/// What is kept of a queue comes back whole: a queue that picks up what another kept keeps
/// that again, history, playing track, queued tracks and the count queued by hand alike.
pub proof fn lemma_kept_queue_comes_back(kept_from: QueueState, state: QueueState)
    requires
        runs_fit(kept_from),
    ensures
        ({
            let (past, current, upcoming, manual) = kept_spec(kept_from);
            kept_spec(revived_spec(state, past, current, upcoming, manual)) == (
                past,
                current,
                upcoming,
                manual,
            )
        }),
{
    let (past, current, upcoming, manual) = kept_spec(kept_from);
    let full = kept_from.past;
    let queued = kept_from.upcoming.subrange(0, queued_of(kept_from));
    let behind = if full.len() < KEPT_PAST {
        full.len() as int
    } else {
        KEPT_PAST as int
    };
    let ahead = if queued.len() < KEPT_UPCOMING {
        queued.len() as int
    } else {
        KEPT_UPCOMING as int
    };
    let by_hand = if kept_from.manual < ahead {
        kept_from.manual as int
    } else {
        ahead
    };
    lemma_filter_ids(full.subrange(full.len() - behind, full.len() as int));
    lemma_filter_ids(queued.take(ahead));
    lemma_filter_prefix(queued, by_hand, ahead);
    lemma_filter_all_ids(past);
    lemma_filter_all_ids(upcoming);
    let after = revived_spec(state, past, current, upcoming, manual);
    assert(after.past == past);
    assert(after.manual == manual);
    assert(queued_of(after) == upcoming.len());
    assert(after.upcoming.subrange(0, queued_of(after)) =~= upcoming);
    assert(past.subrange(past.len() - past.len(), past.len() as int) =~= past);
    assert(upcoming.take(upcoming.len() as int) =~= upcoming);
    let kept_manual = upcoming.take(manual as int);
    assert forall|i: int| 0 <= i < kept_manual.len() implies has_id(#[trigger] kept_manual[i]) by {
        assert(kept_manual[i] == upcoming[i]);
    }
    lemma_filter_all_ids(kept_manual);
}

} // verus!
