//! What the home page puts together: lanes woven into one row, and a mix of the library's
//! tracks for Quick picks that starts from the first ones, adds some at random, then some by
//! artists not yet in it.

use vstd::prelude::*;
use vstd::multiset::Multiset;

use crate::track::{same_text, ArtistRef, Track};

verus! {

/// How many tracks each part of a mix takes.
pub const GROUP_SIZE: usize = 10;
/// How many tracks a mix holds at most.
pub const LIMIT: usize = 30;

/// The items of every lane in turns: the first of each lane, then the second of each, and so
/// on, a lane that runs out dropping out of the turns.
pub open spec fn woven_spec<T>(lanes: Seq<Seq<T>>, round: int, rounds: int) -> Seq<T>
    decreases rounds - round,
{
    if round >= rounds {
        Seq::empty()
    } else {
        turn(lanes, round) + woven_spec(lanes, round + 1, rounds)
    }
}

/// The items at `round` of every lane that is that long, in lane order.
pub open spec fn turn<T>(lanes: Seq<Seq<T>>, round: int) -> Seq<T>
    decreases lanes.len(),
{
    if lanes.len() == 0 {
        Seq::empty()
    } else {
        let last = lanes.last();
        turn(lanes.drop_last(), round) + if 0 <= round < last.len() {
            seq![last[round]]
        } else {
            Seq::empty()
        }
    }
}

/// The length of the longest lane.
pub open spec fn longest<T>(lanes: Seq<Seq<T>>) -> int
    decreases lanes.len(),
{
    if lanes.len() == 0 {
        0
    } else {
        let rest = longest(lanes.drop_last());
        if lanes.last().len() > rest {
            lanes.last().len() as int
        } else {
            rest
        }
    }
}

/// The lanes as plain sequences.
pub open spec fn lanes_of<T>(lanes: Seq<Vec<T>>) -> Seq<Seq<T>> {
    lanes.map_values(|lane: Vec<T>| lane@)
}

/// The lanes woven into one row: the first item of each lane in turn, then the second of each,
/// and so on.
pub fn woven<T: Copy>(lanes: &Vec<Vec<T>>) -> (r: Vec<T>)
    ensures
        r@ == woven_spec(lanes_of(lanes@), 0, longest(lanes_of(lanes@))),
{
    let ghost all = lanes_of(lanes@);
    let mut rounds: usize = 0;
    let mut i: usize = 0;
    while i < lanes.len()
        invariant
            i <= lanes@.len(),
            all == lanes_of(lanes@),
            rounds == longest(all.subrange(0, i as int)),
        decreases lanes@.len() - i,
    {
        assert(all.subrange(0, i + 1).drop_last() =~= all.subrange(0, i as int));
        if lanes[i].len() > rounds {
            rounds = lanes[i].len();
        }
        i = i + 1;
    }
    assert(all.subrange(0, i as int) =~= all);
    let mut out: Vec<T> = Vec::new();
    let mut round: usize = 0;
    while round < rounds
        invariant
            round <= rounds,
            rounds == longest(all),
            all == lanes_of(lanes@),
            woven_spec(all, 0, rounds as int) == out@ + woven_spec(all, round as int, rounds as int),
        decreases rounds - round,
    {
        let ghost before = out@;
        let mut k: usize = 0;
        while k < lanes.len()
            invariant
                k <= lanes@.len(),
                all == lanes_of(lanes@),
                out@ == before + turn(all.subrange(0, k as int), round as int),
            decreases lanes@.len() - k,
        {
            assert(all.subrange(0, k + 1).drop_last() =~= all.subrange(0, k as int));
            if round < lanes[k].len() {
                out.push(lanes[k][round]);
            }
            k = k + 1;
            assert(out@ =~= before + turn(all.subrange(0, k as int), round as int));
        }
        assert(all.subrange(0, k as int) =~= all);
        round = round + 1;
        assert(out@ + woven_spec(all, round as int, rounds as int) =~= before + woven_spec(
            all,
            round - 1,
            rounds as int,
        ));
    }
    assert(out@ =~= out@ + woven_spec(all, round as int, rounds as int));
    out
}

/// A track of the library with the artists it credits one by one.
#[derive(Clone, Debug)]
pub struct Credited {
    pub track: Track,
    pub artist_refs: Vec<ArtistRef>,
}

/// The artist a track counts as in a mix: its first credited artist, by id where it has one
/// and by name otherwise, or the whole credit line when it credits none.
pub open spec fn artist_key_of(credited: Credited) -> Seq<char> {
    if credited.artist_refs@.len() > 0 {
        match credited.artist_refs@[0].id {
            Some(id) => id@,
            None => credited.artist_refs@[0].name@,
        }
    } else {
        credited.track.artists@
    }
}

/// The artist a track counts as in a mix.
pub fn artist_key(credited: &Credited) -> (r: &String)
    ensures
        r@ == artist_key_of(*credited),
{
    if credited.artist_refs.len() > 0 {
        match &credited.artist_refs[0].id {
            Some(id) => id,
            None => &credited.artist_refs[0].name,
        }
    } else {
        &credited.track.artists
    }
}

/// Whether `i` is the place of a track that can be in a mix.
pub open spec fn mix_place(tracks: Seq<Credited>, i: usize) -> bool {
    i < tracks.len() && mixable(tracks[i as int])
}

/// Whether a track can be in a mix: it plays, and it has an id.
pub open spec fn mixable(credited: Credited) -> bool {
    credited.track.playable && credited.track.id is Some
}

/// The places of the tracks that can be in a mix, in order, among the first `upto`.
pub open spec fn eligible(tracks: Seq<Credited>, upto: int) -> Seq<int>
    decreases upto,
{
    if upto <= 0 {
        Seq::empty()
    } else if mixable(tracks[upto - 1]) {
        eligible(tracks, upto - 1).push(upto - 1)
    } else {
        eligible(tracks, upto - 1)
    }
}

/// How fastrand's generator, seeded with `state`, shuffles `len` items on a machine whose
/// `usize` is `width` bits wide (its draws below a bound are taken in 32 or in 64 bits by that
/// width): where each item of the result was taken from, and the generator's state afterwards.
pub uninterp spec fn shuffle_by(state: u64, len: nat, width: u32) -> (Seq<int>, u64);

/// `items` taken in the order `order` gives.
pub open spec fn permuted(items: Seq<usize>, order: Seq<int>) -> Seq<usize> {
    Seq::new(items.len(), |i: int| items[order[i]])
}

/// Shuffles `items` with fastrand's generator seeded with `state` (`Rng::with_seed`, then
/// `Rng::shuffle`), and answers with the generator's state afterwards (`Rng::get_seed`). The
/// contract names the order and the state, which depend on `state`, the number of items and
/// the width of `usize` alone, and claims what fastrand's source shows: the items are only
/// swapped about, so they are the same items, each as often as before.
#[verifier::external_body]
fn shuffle_seeded(state: u64, items: &mut Vec<usize>) -> (next: u64)
    ensures
        final(items)@ == permuted(old(items)@, shuffle_by(state, old(items)@.len(), usize::BITS).0),
        next == shuffle_by(state, old(items)@.len(), usize::BITS).1,
        final(items)@.to_multiset() == old(items)@.to_multiset(),
{
    let mut rng = fastrand::Rng::with_seed(state);
    rng.shuffle(items);
    rng.get_seed()
}

/// The tracks past the first group that join a mix for variety, and those that wait behind
/// them: a track joins while fewer than `GROUP_SIZE` have, when its artist is not in the mix.
pub open spec fn spread(tracks: Seq<Credited>, items: Seq<usize>, keys: Seq<Seq<char>>, count: int) -> (
    Seq<usize>,
    Seq<usize>,
)
    decreases items.len(),
{
    if items.len() == 0 {
        (Seq::empty(), Seq::empty())
    } else {
        let key = artist_key_of(tracks[items[0] as int]);
        if count < GROUP_SIZE && !keys.contains(key) {
            let (joined, waiting) = spread(tracks, items.drop_first(), keys.push(key), count + 1);
            (seq![items[0]] + joined, waiting)
        } else {
            let (joined, waiting) = spread(tracks, items.drop_first(), keys, count);
            (joined, seq![items[0]] + waiting)
        }
    }
}

/// The artists of some tracks.
pub open spec fn keys_of(tracks: Seq<Credited>, picked: Seq<usize>) -> Seq<Seq<char>> {
    picked.map_values(|i: usize| artist_key_of(tracks[i as int]))
}

/// The places of the tracks a mix holds, before it is shuffled, and the generator's state by
/// then: the first `GROUP_SIZE` tracks that can be mixed; then, of the others shuffled, up to
/// `GROUP_SIZE` more; then up to `GROUP_SIZE` of the rest by artists not yet in, in their
/// shuffled order; then the rest, up to `LIMIT` in all.
pub open spec fn selection(tracks: Seq<Credited>, seed: u64) -> (Seq<usize>, u64) {
    let all = eligible(tracks, tracks.len() as int).map_values(|i: int| i as usize);
    let head = if all.len() < GROUP_SIZE {
        all.len() as int
    } else {
        GROUP_SIZE as int
    };
    let first = all.take(head);
    let rest = all.skip(head);
    let shuffled = permuted(rest, shuffle_by(seed, rest.len(), usize::BITS).0);
    let taken = if shuffled.len() < GROUP_SIZE {
        shuffled.len() as int
    } else {
        GROUP_SIZE as int
    };
    let chosen = first + shuffled.take(taken);
    let spread = spread(tracks, shuffled.skip(taken), keys_of(tracks, chosen), 0);
    let picked = chosen + spread.0;
    let room = LIMIT - picked.len();
    let filler = if spread.1.len() < room {
        spread.1
    } else {
        spread.1.take(room)
    };
    (picked + filler, shuffle_by(seed, rest.len(), usize::BITS).1)
}

/// The places of the tracks of the mix, in the order it plays.
pub open spec fn mixed_spec(tracks: Seq<Credited>, seed: u64) -> Seq<usize> {
    let (picked, state) = selection(tracks, seed);
    permuted(picked, shuffle_by(state, picked.len(), usize::BITS).0)
}

/// The tracks a mix plays, in order.
pub open spec fn mix_of(tracks: Seq<Credited>, seed: u64) -> Seq<Track> {
    mixed_spec(tracks, seed).map_values(|i: usize| tracks[i as int].track)
}

/// Whether the artist `key` is among `keys`.
fn has_key(keys: &Vec<String>, key: &String) -> (r: bool)
    ensures
        r == texts_of(keys@).contains(key@),
{
    let ghost all = texts_of(keys@);
    let mut i: usize = 0;
    while i < keys.len()
        invariant
            i <= keys@.len(),
            all == texts_of(keys@),
            forall|j: int| 0 <= j < i ==> all[j] != key@,
        decreases keys@.len() - i,
    {
        if same_text(&keys[i], key) {
            assert(all[i as int] == key@);
            return true;
        }
        i = i + 1;
    }
    false
}

/// The places of the tracks that can be in a mix.
fn eligible_places(tracks: &Vec<Credited>) -> (r: Vec<usize>)
    ensures
        r@ == eligible(tracks@, tracks@.len() as int).map_values(|i: int| i as usize),
        forall|k: int| 0 <= k < r@.len() ==> r@[k] < tracks@.len() && mixable(tracks@[r@[k] as int]),
{
    let mut out: Vec<usize> = Vec::new();
    let mut i: usize = 0;
    while i < tracks.len()
        invariant
            i <= tracks@.len(),
            out@ == eligible(tracks@, i as int).map_values(|k: int| k as usize),
            forall|k: int| 0 <= k < out@.len() ==> out@[k] < i && mixable(tracks@[out@[k] as int]),
        decreases tracks@.len() - i,
    {
        let track = &tracks[i].track;
        if track.playable && track.id.is_some() {
            out.push(i);
        }
        i = i + 1;
        assert(out@ =~= eligible(tracks@, i as int).map_values(|k: int| k as usize));
    }
    out
}

/// The artists of some texts, as plain values.
pub open spec fn texts_of(texts: Seq<String>) -> Seq<Seq<char>> {
    texts.map_values(|text: String| text@)
}

/// The tracks of `items` that join a mix for variety, and those that wait, given the artists
/// already in it, `keys`, and how many joined for variety already, `count`.
fn spread_out(tracks: &Vec<Credited>, items: &Vec<usize>, keys: &mut Vec<String>, count: usize) -> (r: (
    Vec<usize>,
    Vec<usize>,
))
    requires
        count <= GROUP_SIZE,
        forall|t: int| 0 <= t < items@.len() ==> items@[t] < tracks@.len(),
    ensures
        (r.0@, r.1@) == spread(tracks@, items@, texts_of(old(keys)@), count as int),
{
    let ghost keys0 = texts_of(keys@);
    let ghost count0 = count as int;
    let mut joined: Vec<usize> = Vec::new();
    let mut waiting: Vec<usize> = Vec::new();
    let mut count = count;
    let mut n: usize = 0;
    assert(items@.skip(0) =~= items@);
    while n < items.len()
        invariant
            n <= items@.len(),
            count <= GROUP_SIZE,
            forall|t: int| 0 <= t < items@.len() ==> items@[t] < tracks@.len(),
            ({
                let whole = spread(tracks@, items@, keys0, count0);
                let later = spread(tracks@, items@.skip(n as int), texts_of(keys@), count as int);
                whole == (joined@ + later.0, waiting@ + later.1)
            }),
        decreases items@.len() - n,
    {
        let place = items[n];
        let key = artist_key(&tracks[place]);
        let ghost suffix = items@.skip(n as int);
        assert(suffix.drop_first() =~= items@.skip(n + 1));
        assert(suffix[0] == place);
        if count < GROUP_SIZE && !has_key(keys, key) {
            let ghost before = keys@;
            keys.push(key.clone());
            assert(texts_of(keys@) =~= texts_of(before).push(key@));
            let ghost j = joined@;
            joined.push(place);
            assert(joined@ =~= j + seq![place]);
            count = count + 1;
        } else {
            let ghost w = waiting@;
            waiting.push(place);
            assert(waiting@ =~= w + seq![place]);
        }
        n = n + 1;
    }
    assert(items@.skip(n as int) =~= Seq::<usize>::empty());
    assert(joined@ + Seq::<usize>::empty() =~= joined@);
    assert(waiting@ + Seq::<usize>::empty() =~= waiting@);
    (joined, waiting)
}

/// Moving items about keeps what holds of each of them.
proof fn lemma_moved_keeps(before: Seq<usize>, after: Seq<usize>, holds: spec_fn(usize) -> bool)
    requires
        after.to_multiset() == before.to_multiset(),
        forall|k: int| 0 <= k < before.len() ==> holds(#[trigger] before[k]),
    ensures
        forall|k: int| 0 <= k < after.len() ==> holds(#[trigger] after[k]),
        after.len() == before.len(),
{
    before.to_multiset_ensures();
    after.to_multiset_ensures();
    assert forall|k: int| 0 <= k < after.len() implies holds(#[trigger] after[k]) by {
        assert(after.contains(after[k]));
        assert(before.to_multiset().count(after[k]) > 0);
        let j = choose|j: int| 0 <= j < before.len() && before[j] == after[k];
        assert(holds(before[j]));
    }
}

/// What joins and what waits comes from the items, and no more join than are left to.
proof fn lemma_spread_from(
    tracks: Seq<Credited>,
    items: Seq<usize>,
    keys: Seq<Seq<char>>,
    count: int,
    holds: spec_fn(usize) -> bool,
)
    requires
        0 <= count <= GROUP_SIZE,
        forall|k: int| 0 <= k < items.len() ==> holds(#[trigger] items[k]),
    ensures
        spread(tracks, items, keys, count).0.len() + count <= GROUP_SIZE,
        forall|k: int|
            0 <= k < spread(tracks, items, keys, count).0.len() ==> holds(
                #[trigger] spread(tracks, items, keys, count).0[k],
            ),
        forall|k: int|
            0 <= k < spread(tracks, items, keys, count).1.len() ==> holds(
                #[trigger] spread(tracks, items, keys, count).1[k],
            ),
    decreases items.len(),
{
    if items.len() > 0 {
        let key = artist_key_of(tracks[items[0] as int]);
        assert forall|k: int| 0 <= k < items.drop_first().len() implies holds(
            #[trigger] items.drop_first()[k],
        ) by {
            assert(items.drop_first()[k] == items[k + 1]);
        }
        if count < GROUP_SIZE && !keys.contains(key) {
            lemma_spread_from(tracks, items.drop_first(), keys.push(key), count + 1, holds);
        } else {
            lemma_spread_from(tracks, items.drop_first(), keys, count, holds);
        }
    }
}

/// The places that can be mixed rise strictly and lie below `upto`.
proof fn lemma_eligible_rising(tracks: Seq<Credited>, upto: int)
    ensures
        forall|k: int|
            0 <= k < eligible(tracks, upto).len() ==> 0 <= #[trigger] eligible(tracks, upto)[k] < upto,
        forall|a: int, b: int|
            0 <= a < b < eligible(tracks, upto).len() ==> #[trigger] eligible(tracks, upto)[a]
                < #[trigger] eligible(tracks, upto)[b],
    decreases upto,
{
    if upto > 0 {
        lemma_eligible_rising(tracks, upto - 1);
        let before = eligible(tracks, upto - 1);
        let now = eligible(tracks, upto);
        assert forall|k: int| 0 <= k < now.len() implies 0 <= #[trigger] now[k] < upto by {
            if k < before.len() {
                assert(now[k] == before[k]);
            }
        }
        assert forall|a: int, b: int| 0 <= a < b < now.len() implies #[trigger] now[a]
            < #[trigger] now[b] by {
            assert(now[a] == before[a]);
            if b < before.len() {
                assert(now[b] == before[b]);
            }
        }
    }
}

/// What joins for variety and what waits are, together, the items they were drawn from.
proof fn lemma_spread_parts(tracks: Seq<Credited>, items: Seq<usize>, keys: Seq<Seq<char>>, count: int)
    ensures
        spread(tracks, items, keys, count).0.to_multiset().add(
            spread(tracks, items, keys, count).1.to_multiset(),
        ) =~= items.to_multiset(),
        spread(tracks, items, keys, count).0.len() + spread(tracks, items, keys, count).1.len()
            == items.len(),
    decreases items.len(),
{
    broadcast use vstd::multiset::group_multiset_axioms, vstd::seq_lib::lemma_multiset_commutative;

    if items.len() > 0 {
        let first = items[0];
        let later = items.drop_first();
        let key = artist_key_of(tracks[first as int]);
        assert(items =~= seq![first] + later);
        assert(items.to_multiset() =~= seq![first].to_multiset().add(later.to_multiset()));
        if count < GROUP_SIZE && !keys.contains(key) {
            lemma_spread_parts(tracks, later, keys.push(key), count + 1);
            let rest = spread(tracks, later, keys.push(key), count + 1);
            assert(spread(tracks, items, keys, count) == (seq![first] + rest.0, rest.1));
            assert((seq![first] + rest.0).to_multiset() =~= seq![first].to_multiset().add(
                rest.0.to_multiset(),
            ));
        } else {
            lemma_spread_parts(tracks, later, keys, count);
            let rest = spread(tracks, later, keys, count);
            assert(spread(tracks, items, keys, count) == (rest.0, seq![first] + rest.1));
            assert((seq![first] + rest.1).to_multiset() =~= seq![first].to_multiset().add(
                rest.1.to_multiset(),
            ));
        }
    } else {
        let none = Seq::<usize>::empty();
        assert(items =~= none);
        assert(none + none =~= none);
        assert((none + none).to_multiset() =~= none.to_multiset().add(none.to_multiset()));
    }
}

/// A sequence splits into its first `n` items and the rest, as multisets.
proof fn lemma_split_counts(s: Seq<usize>, n: int)
    requires
        0 <= n <= s.len(),
    ensures
        s.to_multiset() =~= s.take(n).to_multiset().add(s.skip(n).to_multiset()),
{
    broadcast use vstd::seq_lib::lemma_multiset_commutative;

    assert(s =~= s.take(n) + s.skip(n));
}

/// The places a mix picks, before its last shuffle: the first `head` places, the first `taken`
/// of the others shuffled, those that joined for variety and the first `fill` of those that
/// waited. Each comes from the places, and none twice.
proof fn lemma_picked_distinct(
    all: Seq<usize>,
    head: int,
    rest: Seq<usize>,
    taken: int,
    joined: Seq<usize>,
    waiting: Seq<usize>,
    fill: int,
    picked: Seq<usize>,
)
    requires
        all.no_duplicates(),
        0 <= head <= all.len(),
        rest.to_multiset() == all.skip(head).to_multiset(),
        0 <= taken <= rest.len(),
        joined.to_multiset().add(waiting.to_multiset()) =~= rest.skip(taken).to_multiset(),
        0 <= fill <= waiting.len(),
        picked == all.take(head) + rest.take(taken) + joined + waiting.take(fill),
    ensures
        picked.no_duplicates(),
        forall|k: int| 0 <= k < picked.len() ==> all.contains(#[trigger] picked[k]),
        picked.to_multiset().add(waiting.skip(fill).to_multiset()) =~= all.to_multiset(),
{
    broadcast use vstd::multiset::group_multiset_axioms, vstd::seq_lib::lemma_multiset_commutative;

    lemma_split_counts(all, head);
    lemma_split_counts(rest, taken);
    lemma_split_counts(waiting, fill);
    all.lemma_multiset_has_no_duplicates();
    all.to_multiset_ensures();
    picked.to_multiset_ensures();
    assert(picked.to_multiset().add(waiting.skip(fill).to_multiset()) =~= all.to_multiset());
    assert forall|x: usize| picked.to_multiset().contains(x) implies picked.to_multiset().count(x)
        == 1 by {
        assert(all.to_multiset().count(x) >= picked.to_multiset().count(x));
    }
    picked.lemma_multiset_has_no_duplicates_conv();
    assert forall|k: int| 0 <= k < picked.len() implies all.contains(#[trigger] picked[k]) by {
        assert(picked.contains(picked[k]));
        assert(all.to_multiset().count(picked[k]) > 0);
    }
}

/// Moving distinct items about keeps them distinct and keeps each of them.
proof fn lemma_moved_distinct(before: Seq<usize>, after: Seq<usize>)
    requires
        after.to_multiset() == before.to_multiset(),
        before.no_duplicates(),
    ensures
        after.no_duplicates(),
        forall|x: usize| before.contains(x) ==> after.contains(x),
{
    before.lemma_multiset_has_no_duplicates();
    before.to_multiset_ensures();
    after.to_multiset_ensures();
    after.lemma_multiset_has_no_duplicates_conv();
    assert forall|x: usize| before.contains(x) implies after.contains(x) by {
        assert(before.to_multiset().count(x) > 0);
    }
}

/// The first `count` of `items`.
fn prefix(items: &Vec<usize>, count: usize) -> (r: Vec<usize>)
    requires
        count <= items@.len(),
    ensures
        r@ == items@.take(count as int),
{
    let mut out: Vec<usize> = Vec::new();
    let mut i: usize = 0;
    while i < count
        invariant
            i <= count <= items@.len(),
            out@ == items@.take(i as int),
        decreases count - i,
    {
        out.push(items[i]);
        i = i + 1;
        assert(out@ =~= items@.take(i as int));
    }
    out
}

/// The items of `items` after the first `count`.
fn suffix(items: &Vec<usize>, count: usize) -> (r: Vec<usize>)
    requires
        count <= items@.len(),
    ensures
        r@ == items@.skip(count as int),
{
    let mut out: Vec<usize> = Vec::new();
    let mut i: usize = count;
    while i < items.len()
        invariant
            count <= i <= items@.len(),
            out@ == items@.subrange(count as int, i as int),
        decreases items@.len() - i,
    {
        out.push(items[i]);
        i = i + 1;
        assert(out@ =~= items@.subrange(count as int, i as int));
    }
    assert(items@.subrange(count as int, i as int) =~= items@.skip(count as int));
    out
}

/// The artists of the tracks at `picked`.
fn keys_for(tracks: &Vec<Credited>, picked: &Vec<usize>) -> (r: Vec<String>)
    requires
        forall|k: int| 0 <= k < picked@.len() ==> #[trigger] picked@[k] < tracks@.len(),
    ensures
        texts_of(r@) == keys_of(tracks@, picked@),
{
    let mut keys: Vec<String> = Vec::new();
    let mut m: usize = 0;
    while m < picked.len()
        invariant
            m <= picked@.len(),
            forall|k: int| 0 <= k < picked@.len() ==> #[trigger] picked@[k] < tracks@.len(),
            texts_of(keys@) == keys_of(tracks@, picked@.take(m as int)),
        decreases picked@.len() - m,
    {
        let key = artist_key(&tracks[picked[m]]);
        let ghost before = keys@;
        keys.push(key.clone());
        assert(keys@ == before.push(keys@.last()));
        assert(texts_of(keys@) =~= texts_of(before).push(key@));
        assert(picked@.take(m + 1) =~= picked@.take(m as int).push(picked@[m as int]));
        m = m + 1;
        assert(texts_of(keys@) =~= keys_of(tracks@, picked@.take(m as int)));
    }
    assert(picked@.take(m as int) =~= picked@);
    keys
}

/// A mix of up to `LIMIT` of `tracks` for Quick picks, the same for the same tracks and seed:
/// the first `GROUP_SIZE` that can be mixed, up to `GROUP_SIZE` more at random, up to
/// `GROUP_SIZE` more by artists not yet in it, then the rest up to `LIMIT`, all shuffled. A track
/// that does not play or has no id is never in it. The mix holds `LIMIT` tracks, or every one
/// that can be mixed where there are fewer; each from a place that can be mixed, and no place
/// twice; and it always holds the first `GROUP_SIZE` that can be mixed.
pub fn mixed_tracks(tracks: &Vec<Credited>, seed: u64) -> (r: Vec<Track>)
    ensures
        r@ == mix_of(tracks@, seed),
        r@.len() <= LIMIT,
        forall|k: int| 0 <= k < r@.len() ==> (#[trigger] r@[k]).playable && r@[k].id is Some,
        mixed_spec(tracks@, seed).len() == if eligible(tracks@, tracks@.len() as int).len() < LIMIT {
            eligible(tracks@, tracks@.len() as int).len()
        } else {
            LIMIT as nat
        },
        mixed_spec(tracks@, seed).no_duplicates(),
        forall|k: int|
            0 <= k < mixed_spec(tracks@, seed).len() ==> eligible(
                tracks@,
                tracks@.len() as int,
            ).contains(#[trigger] mixed_spec(tracks@, seed)[k] as int),
        forall|j: int|
            0 <= j < eligible(tracks@, tracks@.len() as int).len() && j < GROUP_SIZE
                ==> mixed_spec(tracks@, seed).contains(
                #[trigger] eligible(tracks@, tracks@.len() as int)[j] as usize,
            ),
{
    let ghost fits = |i: usize| mix_place(tracks@, i);
    let all = eligible_places(tracks);
    let head = if all.len() < GROUP_SIZE {
        all.len()
    } else {
        GROUP_SIZE
    };
    let mut picked = prefix(&all, head);
    let mut rest = suffix(&all, head);
    let ghost unshuffled = rest@;
    let state = shuffle_seeded(seed, &mut rest);
    proof {
        assert forall|k: int| 0 <= k < unshuffled.len() implies fits(#[trigger] unshuffled[k]) by {
            assert(unshuffled[k] == all@[head + k]);
        }
        lemma_moved_keeps(unshuffled, rest@, fits);
    }
    let taken = if rest.len() < GROUP_SIZE {
        rest.len()
    } else {
        GROUP_SIZE
    };
    let mut more = prefix(&rest, taken);
    let leftover = suffix(&rest, taken);
    let ghost first = picked@;
    let ghost morev = more@;
    picked.append(&mut more);
    assert forall|k: int| 0 <= k < picked@.len() implies mix_place(tracks@, #[trigger] picked@[k]) by {
        if k < first.len() {
            assert(picked@[k] == all@[k]);
        } else {
            assert(picked@[k] == morev[k - first.len()]);
            assert(fits(rest@[k - first.len()]));
        }
    }
    let mut keys = keys_for(tracks, &picked);
    let ghost keys0 = texts_of(keys@);
    let ghost sp = spread(tracks@, leftover@, keys0, 0);
    proof {
        assert forall|k: int| 0 <= k < leftover@.len() implies fits(#[trigger] leftover@[k]) by {
            assert(leftover@[k] == rest@[taken + k]);
        }
        lemma_spread_from(tracks@, leftover@, texts_of(keys@), 0, fits);
    }
    let (mut joined, waiting) = spread_out(tracks, &leftover, &mut keys, 0);
    let ghost chosen = picked@;
    let ghost joinedv = joined@;
    picked.append(&mut joined);
    let room = LIMIT - picked.len();
    let fill = if waiting.len() < room {
        waiting.len()
    } else {
        room
    };
    let mut filler = prefix(&waiting, fill);
    let ghost before_fill = picked@;
    let ghost fillv = filler@;
    picked.append(&mut filler);
    proof {
        assert(fillv =~= if waiting@.len() < room {
            waiting@
        } else {
            waiting@.take(room as int)
        }) by {
            if waiting@.len() < room {
                assert(waiting@.take(fill as int) =~= waiting@);
            }
        }
        assert forall|k: int| 0 <= k < picked@.len() implies fits(#[trigger] picked@[k]) by {
            if k < chosen.len() {
                assert(picked@[k] == chosen[k]);
                assert(mix_place(tracks@, chosen[k]));
            } else if k < before_fill.len() {
                assert(picked@[k] == joinedv[k - chosen.len()]);
                assert(joinedv == sp.0);
                assert(fits(sp.0[k - chosen.len()]));
            } else {
                assert(picked@[k] == fillv[k - before_fill.len()]);
                assert(fillv[k - before_fill.len()] == waiting@[k - before_fill.len()]);
                assert(waiting@ == sp.1);
                assert(fits(sp.1[k - before_fill.len()]));
            }
        }
        assert(picked@ =~= selection(tracks@, seed).0);
    }
    let ghost unmixed = picked@;
    // How many tracks there are, as a `usize`: every place converts to one and back unchanged.
    let count: usize = tracks.len();
    proof {
        let places = eligible(tracks@, tracks@.len() as int);
        assert(tracks@.len() == count);
        lemma_eligible_rising(tracks@, tracks@.len() as int);
        assert forall|a: int, b: int| 0 <= a < all@.len() && 0 <= b < all@.len() && a != b implies all@[a]
            != all@[b] by {
            assert(all@[a] == places[a] as usize && all@[b] == places[b] as usize);
            assert(0 <= places[a] < tracks@.len() && 0 <= places[b] < tracks@.len());
            if a < b {
                assert(places[a] < places[b]);
            } else {
                assert(places[b] < places[a]);
            }
        }
        lemma_spread_parts(tracks@, leftover@, keys0, 0);
        assert(unmixed =~= all@.take(head as int) + rest@.take(taken as int) + sp.0 + waiting@.take(
            fill as int,
        ));
        lemma_picked_distinct(
            all@,
            head as int,
            rest@,
            taken as int,
            sp.0,
            sp.1,
            fill as int,
            unmixed,
        );
    }
    let _after = shuffle_seeded(state, &mut picked);
    proof {
        lemma_moved_distinct(unmixed, picked@);
        let places = eligible(tracks@, tracks@.len() as int);
        assert(tracks@.len() == count);
        assert(picked@ == mixed_spec(tracks@, seed));
        assert(all@.len() == places.len());
        assert forall|k: int| 0 <= k < picked@.len() implies places.contains(
            #[trigger] picked@[k] as int,
        ) by {
            assert(picked@.to_multiset().count(picked@[k]) > 0) by {
                picked@.to_multiset_ensures();
                assert(picked@.contains(picked@[k]));
            }
            assert(unmixed.contains(picked@[k])) by {
                unmixed.to_multiset_ensures();
                picked@.to_multiset_ensures();
            }
            let u = choose|u: int| 0 <= u < unmixed.len() && unmixed[u] == picked@[k];
            assert(all@.contains(unmixed[u]));
            let i = choose|i: int| 0 <= i < all@.len() && all@[i] == unmixed[u];
            assert(0 <= places[i] < tracks@.len());
            assert(all@[i] == places[i] as usize);
            assert(places[i] == picked@[k] as int);
        }
        assert forall|j: int| 0 <= j < places.len() && j < GROUP_SIZE implies picked@.contains(
            #[trigger] places[j] as usize,
        ) by {
            assert(unmixed[j] == all@[j]);
            assert(unmixed.contains(all@[j]));
        }
        lemma_moved_keeps(unmixed, picked@, fits);
        assert forall|k: int| 0 <= k < picked@.len() implies mix_place(tracks@, #[trigger] picked@[k]) by {
            assert(fits(picked@[k]));
        }
    }
    let mut out: Vec<Track> = Vec::new();
    let mut i: usize = 0;
    while i < picked.len()
        invariant
            i <= picked@.len(),
            forall|k: int| 0 <= k < picked@.len() ==> mix_place(tracks@, #[trigger] picked@[k]),
            out@ == picked@.take(i as int).map_values(|p: usize| tracks@[p as int].track),
        decreases picked@.len() - i,
    {
        assert(mix_place(tracks@, picked@[i as int]));
        out.push(tracks[picked[i]].track.copy());
        i = i + 1;
        assert(out@ =~= picked@.take(i as int).map_values(|p: usize| tracks@[p as int].track));
    }
    assert(picked@.take(i as int) =~= picked@);
    out
}

} // verus!
