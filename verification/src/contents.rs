//! Which tracks the user's own playlists hold, as far as they were read: the ids of each
//! playlist's tracks, kept up to date as tracks are added and removed, so a track's menu can
//! say whether a playlist has it without asking the provider.

use vstd::prelude::*;

use crate::feed::texts_view;
use crate::track::same_text;

verus! {

/// What was read of the playlists, as plain values: each playlist's id and its tracks' ids.
pub open spec fn entries_view(entries: Seq<(String, Vec<String>)>) -> Seq<(Seq<char>, Seq<Seq<char>>)> {
    entries.map_values(|entry: (String, Vec<String>)| (entry.0@, texts_view(entry.1@)))
}

/// The ids of the tracks read of playlist `playlist`: its first entry's.
pub open spec fn listed(entries: Seq<(Seq<char>, Seq<Seq<char>>)>, playlist: Seq<char>) -> Option<Seq<Seq<char>>>
    decreases entries.len(),
{
    if entries.len() == 0 {
        None
    } else if entries[0].0 == playlist {
        Some(entries[0].1)
    } else {
        listed(entries.drop_first(), playlist)
    }
}

/// The ids without any of `gone`, in order.
pub open spec fn without_ids(ids: Seq<Seq<char>>, gone: Seq<Seq<char>>) -> Seq<Seq<char>>
    decreases ids.len(),
{
    if ids.len() == 0 {
        Seq::empty()
    } else {
        let before = without_ids(ids.drop_last(), gone);
        if gone.contains(ids.last()) {
            before
        } else {
            before.push(ids.last())
        }
    }
}

/// The tracks read of the playlists.
pub struct Contents {
    entries: Vec<(String, Vec<String>)>,
}

impl View for Contents {
    type V = Seq<(Seq<char>, Seq<Seq<char>>)>;

    closed spec fn view(&self) -> Seq<(Seq<char>, Seq<Seq<char>>)> {
        entries_view(self.entries@)
    }
}

/// A copy of some texts.
fn copy_texts(texts: &Vec<String>) -> (r: Vec<String>)
    ensures
        texts_view(r@) == texts_view(texts@),
{
    let mut out: Vec<String> = Vec::new();
    let mut i: usize = 0;
    while i < texts.len()
        invariant
            i <= texts@.len(),
            texts_view(out@) == texts_view(texts@).subrange(0, i as int),
        decreases texts@.len() - i,
    {
        let ghost was = out@;
        out.push(texts[i].clone());
        assert(texts_view(out@) =~= texts_view(was).push(texts@[i as int]@));
        assert(texts_view(out@) =~= texts_view(texts@).subrange(0, i + 1));
        i = i + 1;
    }
    assert(texts_view(texts@).subrange(0, i as int) =~= texts_view(texts@));
    out
}

/// Where playlist `playlist` is first listed: found through the first `i` entries.
pub open spec fn first_at(entries: Seq<(Seq<char>, Seq<Seq<char>>)>, playlist: Seq<char>, i: int) -> bool {
    0 <= i < entries.len() && entries[i].0 == playlist && forall|j: int|
        0 <= j < i ==> #[trigger] entries[j].0 != playlist
}

/// What is listed of a playlist is its first entry's, and nothing when no entry has it.
pub proof fn lemma_listed(entries: Seq<(Seq<char>, Seq<Seq<char>>)>, playlist: Seq<char>)
    ensures
        match listed(entries, playlist) {
            Some(ids) => exists|i: int| first_at(entries, playlist, i) && #[trigger] entries[i].1 == ids,
            None => forall|j: int| 0 <= j < entries.len() ==> #[trigger] entries[j].0 != playlist,
        },
    decreases entries.len(),
{
    if entries.len() > 0 && entries[0].0 != playlist {
        let rest = entries.drop_first();
        lemma_listed(rest, playlist);
        match listed(rest, playlist) {
            Some(ids) => {
                let i = choose|i: int| first_at(rest, playlist, i) && #[trigger] rest[i].1 == ids;
                assert(entries[i + 1] == rest[i]);
                assert forall|j: int| 0 <= j < i + 1 implies #[trigger] entries[j].0 != playlist by {
                    if j > 0 {
                        assert(entries[j] == rest[j - 1]);
                    }
                }
                assert(first_at(entries, playlist, i + 1) && entries[i + 1].1 == ids);
            },
            None => {
                assert forall|j: int| 0 <= j < entries.len() implies #[trigger] entries[j].0 != playlist by {
                    if j > 0 {
                        assert(entries[j] == rest[j - 1]);
                    }
                }
            },
        }
    } else if entries.len() > 0 {
        assert(first_at(entries, playlist, 0));
    }
}

/// Changing the tracks of a playlist's first entry changes what is listed of it and of no
/// other playlist.
pub proof fn lemma_listed_update(
    entries: Seq<(Seq<char>, Seq<Seq<char>>)>,
    playlist: Seq<char>,
    i: int,
    ids: Seq<Seq<char>>,
    other: Seq<char>,
)
    requires
        first_at(entries, playlist, i),
    ensures
        listed(entries.update(i, (playlist, ids)), other) == if other == playlist {
            Some(ids)
        } else {
            listed(entries, other)
        },
    decreases entries.len(),
{
    let changed = entries.update(i, (playlist, ids));
    if i == 0 {
        if other != playlist {
            assert(changed.drop_first() =~= entries.drop_first());
        }
    } else {
        let rest = entries.drop_first();
        assert forall|j: int| 0 <= j < i - 1 implies #[trigger] rest[j].0 != playlist by {
            assert(rest[j] == entries[j + 1]);
        }
        assert(first_at(rest, playlist, i - 1));
        lemma_listed_update(rest, playlist, i - 1, ids, other);
        assert(changed.drop_first() =~= rest.update(i - 1, (playlist, ids)));
        assert(changed[0] == entries[0]);
    }
}

/// The entries without those of the playlists of `gone`.
pub open spec fn without_playlists(entries: Seq<(Seq<char>, Seq<Seq<char>>)>, gone: Seq<Seq<char>>) -> Seq<
    (Seq<char>, Seq<Seq<char>>),
>
    decreases entries.len(),
{
    if entries.len() == 0 {
        Seq::empty()
    } else {
        let before = without_playlists(entries.drop_last(), gone);
        if gone.contains(entries.last().0) {
            before
        } else {
            before.push(entries.last())
        }
    }
}

/// What is listed of a playlist after the entries of `gone` are dropped: nothing for those,
/// the same as before for the others.
pub proof fn lemma_listed_without(
    entries: Seq<(Seq<char>, Seq<Seq<char>>)>,
    gone: Seq<Seq<char>>,
    playlist: Seq<char>,
)
    ensures
        listed(without_playlists(entries, gone), playlist) == if gone.contains(playlist) {
            None
        } else {
            listed(entries, playlist)
        },
    decreases entries.len(),
{
    if entries.len() > 0 {
        let rest = entries.drop_last();
        lemma_listed_without(rest, gone, playlist);
        lemma_listed_push(without_playlists(rest, gone), entries.last(), playlist);
        lemma_listed_push(rest, entries.last(), playlist);
        assert(rest.push(entries.last()) =~= entries);
    }
}

/// Listing a playlist in an entry at the end changes nothing for one listed before.
pub proof fn lemma_listed_push(
    entries: Seq<(Seq<char>, Seq<Seq<char>>)>,
    entry: (Seq<char>, Seq<Seq<char>>),
    playlist: Seq<char>,
)
    ensures
        listed(entries.push(entry), playlist) == match listed(entries, playlist) {
            Some(ids) => Some(ids),
            None => if entry.0 == playlist {
                Some(entry.1)
            } else {
                None
            },
        },
    decreases entries.len(),
{
    if entries.len() == 0 {
        let pushed = entries.push(entry);
        let empty = Seq::<(Seq<char>, Seq<Seq<char>>)>::empty();
        assert(listed(empty, playlist) is None);
        assert(pushed.drop_first() =~= empty);
        assert(pushed[0] == entry);
        assert(listed(entries, playlist) is None);
    } else {
        lemma_listed_push(entries.drop_first(), entry, playlist);
        assert(entries.push(entry).drop_first() =~= entries.drop_first().push(entry));
        assert(entries.push(entry)[0] == entries[0]);
    }
}

impl Contents {
    /// Nothing read.
    pub fn new() -> (r: Contents)
        ensures
            r@.len() == 0,
    {
        let r = Contents { entries: Vec::new() };
        assert(entries_view(r.entries@) =~= Seq::<(Seq<char>, Seq<Seq<char>>)>::empty());
        r
    }

    /// Where playlist `playlist` is first listed.
    fn find(&self, playlist: &String) -> (r: Option<usize>)
        ensures
            match r {
                Some(i) => first_at(self@, playlist@, i as int),
                None => forall|j: int| 0 <= j < self@.len() ==> #[trigger] self@[j].0 != playlist@,
            },
    {
        let mut i: usize = 0;
        while i < self.entries.len()
            invariant
                i <= self.entries@.len(),
                self@ == entries_view(self.entries@),
                forall|j: int| 0 <= j < i ==> #[trigger] self@[j].0 != playlist@,
            decreases self.entries@.len() - i,
        {
            if same_text(&self.entries[i].0, playlist) {
                return Some(i);
            }
            i = i + 1;
        }
        None
    }

    /// Whether playlist `playlist` holds track `track`: nothing when the playlist was not read.
    pub fn holds(&self, playlist: &String, track: &String) -> (r: Option<bool>)
        ensures
            r == match listed(self@, playlist@) {
                Some(ids) => Some(ids.contains(track@)),
                None => None,
            },
    {
        proof {
            lemma_listed(self@, playlist@);
        }
        match self.find(playlist) {
            Some(i) => {
                proof {
                    if let Some(ids) = listed(self@, playlist@) {
                        let k = choose|k: int| first_at(self@, playlist@, k) && #[trigger] self@[k].1 == ids;
                        if k < i {
                        } else if k > i {
                            assert(self@[i as int].0 != playlist@);
                        }
                    }
                }
                Some(crate::library::among(&self.entries[i].1, track))
            },
            None => None,
        }
    }

    /// The tracks of playlist `playlist` were read: they are its tracks from here on.
    pub fn read(&mut self, playlist: String, tracks: Vec<String>)
        ensures
            forall|other: Seq<char>|
                #[trigger] listed(final(self)@, other) == if other == playlist@ {
                    Some(texts_view(tracks@))
                } else {
                    listed(old(self)@, other)
                },
    {
        let gone = vec![playlist.clone()];
        let ghost before = self@;
        self.unread(&gone);
        let ghost dropped = self@;
        let ghost entry = (playlist@, texts_view(tracks@));
        self.entries.push((playlist, tracks));
        proof {
            assert(self@ =~= dropped.push(entry));
            assert(texts_view(gone@) =~= seq![entry.0]);
            assert forall|other: Seq<char>| #[trigger] listed(self@, other) == if other == entry.0 {
                Some(entry.1)
            } else {
                listed(before, other)
            } by {
                lemma_listed_push(dropped, entry, other);
                assert(texts_view(gone@).contains(other) == (other == entry.0)) by {
                    if other == entry.0 {
                        assert(texts_view(gone@)[0] == other);
                    }
                }
            }
        }
    }

    /// Tracks were added to playlist `playlist`: they join what was read of it, if it was.
    pub fn added(&mut self, playlist: &String, tracks: &Vec<String>)
        ensures
            forall|other: Seq<char>|
                #[trigger] listed(final(self)@, other) == if other == playlist@ {
                    match listed(old(self)@, other) {
                        Some(ids) => Some(ids + texts_view(tracks@)),
                        None => None,
                    }
                } else {
                    listed(old(self)@, other)
                },
    {
        proof {
            lemma_listed(self@, playlist@);
        }
        let ghost before = self@;
        match self.find(playlist) {
            Some(i) => {
                let mut ids = copy_texts(&self.entries[i].1);
                let mut more = copy_texts(tracks);
                let ghost had = texts_view(ids@);
                ids.append(&mut more);
                let ghost now = had + texts_view(tracks@);
                assert(texts_view(ids@) =~= now);
                let name = self.entries[i].0.clone();
                self.entries.set(i, (name, ids));
                proof {
                    assert(self@ =~= before.update(i as int, (playlist@, now)));
                    if let Some(listed_ids) = listed(before, playlist@) {
                        let k = choose|k: int| first_at(before, playlist@, k) && #[trigger] before[k].1 == listed_ids;
                        if k < i {
                        } else if k > i {
                            assert(before[i as int].0 != playlist@);
                        }
                    }
                    assert forall|other: Seq<char>| #[trigger] listed(self@, other) == if other == playlist@ {
                        match listed(before, other) {
                            Some(ids) => Some(ids + texts_view(tracks@)),
                            None => None,
                        }
                    } else {
                        listed(before, other)
                    } by {
                        lemma_listed_update(before, playlist@, i as int, now, other);
                    }
                }
            },
            None => {},
        }
    }

    /// Tracks were removed from playlist `playlist`: none of them stays in what was read of
    /// it, if it was.
    pub fn dropped(&mut self, playlist: &String, tracks: &Vec<String>)
        ensures
            forall|other: Seq<char>|
                #[trigger] listed(final(self)@, other) == if other == playlist@ {
                    match listed(old(self)@, other) {
                        Some(ids) => Some(without_ids(ids, texts_view(tracks@))),
                        None => None,
                    }
                } else {
                    listed(old(self)@, other)
                },
    {
        proof {
            lemma_listed(self@, playlist@);
        }
        let ghost before = self@;
        match self.find(playlist) {
            Some(i) => {
                let ghost had = before[i as int].1;
                let ghost wanted = texts_view(tracks@);
                let mut kept: Vec<String> = Vec::new();
                let mut k: usize = 0;
                assert(texts_view(kept@) =~= without_ids(had.subrange(0, 0), wanted));
                while k < self.entries[i].1.len()
                    invariant
                        i < self.entries@.len(),
                        self@ == before,
                        had == texts_view(self.entries@[i as int].1@),
                        wanted == texts_view(tracks@),
                        k <= had.len(),
                        texts_view(kept@) == without_ids(had.subrange(0, k as int), wanted),
                    decreases had.len() - k,
                {
                    assert(had.subrange(0, k + 1).drop_last() =~= had.subrange(0, k as int));
                    assert(had.subrange(0, k + 1).last() == self.entries@[i as int].1@[k as int]@);
                    let id = &self.entries[i].1[k];
                    if !crate::library::among(tracks, id) {
                        let ghost was = kept@;
                        kept.push(id.clone());
                        assert(texts_view(kept@) =~= texts_view(was).push(id@));
                    }
                    k = k + 1;
                }
                assert(had.subrange(0, k as int) =~= had);
                let ghost now = without_ids(had, wanted);
                let name = self.entries[i].0.clone();
                self.entries.set(i, (name, kept));
                proof {
                    assert(self@ =~= before.update(i as int, (playlist@, now)));
                    if let Some(listed_ids) = listed(before, playlist@) {
                        let j = choose|j: int| first_at(before, playlist@, j) && #[trigger] before[j].1 == listed_ids;
                        if j < i {
                        } else if j > i {
                            assert(before[i as int].0 != playlist@);
                        }
                    }
                    assert forall|other: Seq<char>| #[trigger] listed(self@, other) == if other == playlist@ {
                        match listed(before, other) {
                            Some(ids) => Some(without_ids(ids, wanted)),
                            None => None,
                        }
                    } else {
                        listed(before, other)
                    } by {
                        lemma_listed_update(before, playlist@, i as int, now, other);
                    }
                }
            },
            None => {},
        }
    }

    /// Forgets what was read of the playlists of `gone`.
    pub fn unread(&mut self, gone: &Vec<String>)
        ensures
            final(self)@ == without_playlists(old(self)@, texts_view(gone@)),
            forall|other: Seq<char>|
                #[trigger] listed(final(self)@, other) == if texts_view(gone@).contains(other) {
                    None
                } else {
                    listed(old(self)@, other)
                },
    {
        let ghost wanted = texts_view(gone@);
        let mut all: Vec<(String, Vec<String>)> = Vec::new();
        std::mem::swap(&mut all, &mut self.entries);
        let ghost before = entries_view(all@);
        let mut kept: Vec<(String, Vec<String>)> = Vec::new();
        assert(entries_view(kept@) =~= without_playlists(before.subrange(0, 0), wanted));
        while all.len() > 0
            invariant
                entries_view(all@).len() <= before.len(),
                wanted == texts_view(gone@),
                entries_view(kept@) == without_playlists(
                    before.subrange(0, before.len() - entries_view(all@).len()),
                    wanted,
                ),
                entries_view(all@) == before.subrange(before.len() - entries_view(all@).len(), before.len() as int),
            decreases all@.len(),
        {
            let ghost at = before.len() - entries_view(all@).len();
            let ghost was = all@;
            let entry = all.remove(0);
            proof {
                assert(before.subrange(0, at + 1).drop_last() =~= before.subrange(0, at));
                assert(entries_view(was)[0] == before.subrange(at, before.len() as int)[0]);
                assert(before[at] == (entry.0@, texts_view(entry.1@)));
                assert(entries_view(all@) =~= entries_view(was).drop_first());
                assert(entries_view(all@) =~= before.subrange(at + 1, before.len() as int));
            }
            if !crate::library::among(gone, &entry.0) {
                let ghost had = kept@;
                kept.push(entry);
                assert(entries_view(kept@) =~= entries_view(had).push(before[at]));
            }
            assert(entries_view(kept@) =~= without_playlists(before.subrange(0, at + 1), wanted));
        }
        assert(before.subrange(0, before.len() as int) =~= before);
        self.entries = kept;
        proof {
            assert forall|other: Seq<char>| #[trigger] listed(self@, other) == if wanted.contains(other) {
                None
            } else {
                listed(before, other)
            } by {
                lemma_listed_without(before, wanted, other);
            }
        }
    }
}

} // verus!
