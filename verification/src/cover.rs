//! The artwork of the album that plays: the large cover and the largest one, kept per album so
//! that going back to an album shows its artwork at once, and fetched only when none is kept.

use vstd::prelude::*;

use crate::track::{copy_optional, same_text, text_of};

verus! {

/// The artwork kept of one album: the large cover and the largest one, where there are.
#[derive(Clone, Debug, PartialEq, Eq)]
pub struct Held {
    pub large: Option<String>,
    pub max: Option<String>,
}

/// Artwork as plain values.
pub struct HeldView {
    pub large: Option<Seq<char>>,
    pub max: Option<Seq<char>>,
}

impl View for Held {
    type V = HeldView;

    open spec fn view(&self) -> HeldView {
        HeldView { large: text_of(self.large), max: text_of(self.max) }
    }
}

/// The artwork kept of `album`, the first entry for it.
pub open spec fn held_for(cache: Seq<(Seq<char>, HeldView)>, album: Seq<char>) -> Option<HeldView>
    decreases cache.len(),
{
    if cache.len() == 0 {
        None
    } else if cache[0].0 == album {
        Some(cache[0].1)
    } else {
        held_for(cache.drop_first(), album)
    }
}

/// The cache without the entries of `album`.
pub open spec fn without_album(cache: Seq<(Seq<char>, HeldView)>, album: Seq<char>) -> Seq<(Seq<char>, HeldView)>
    decreases cache.len(),
{
    if cache.len() == 0 {
        Seq::empty()
    } else {
        let before = without_album(cache.drop_last(), album);
        if cache.last().0 == album {
            before
        } else {
            before.push(cache.last())
        }
    }
}

/// The cache without the entries of the albums of `gone`.
pub open spec fn without_any(cache: Seq<(Seq<char>, HeldView)>, gone: Seq<Seq<char>>) -> Seq<(Seq<char>, HeldView)>
    decreases cache.len(),
{
    if cache.len() == 0 {
        Seq::empty()
    } else {
        let before = without_any(cache.drop_last(), gone);
        if gone.contains(cache.last().0) {
            before
        } else {
            before.push(cache.last())
        }
    }
}

/// The artwork of the album that plays, as plain values: the album, its large cover and its
/// largest one, and the artwork kept per album.
pub struct CoverView {
    pub album: Option<Seq<char>>,
    pub large: Option<Seq<char>>,
    pub max: Option<Seq<char>>,
    pub cache: Seq<(Seq<char>, HeldView)>,
}

/// The artwork of the album that plays, and the artwork kept per album.
pub struct Cover {
    album: Option<String>,
    large: Option<String>,
    max: Option<String>,
    cache: Vec<(String, Held)>,
}

/// The cache as plain values.
pub open spec fn cache_view(cache: Seq<(String, Held)>) -> Seq<(Seq<char>, HeldView)> {
    cache.map_values(|entry: (String, Held)| (entry.0@, entry.1@))
}

impl View for Cover {
    type V = CoverView;

    closed spec fn view(&self) -> CoverView {
        CoverView {
            album: text_of(self.album),
            large: text_of(self.large),
            max: text_of(self.max),
            cache: cache_view(self.cache@),
        }
    }
}

/// A copy of kept artwork.
fn copy_held(held: &Held) -> (r: Held)
    ensures
        r@ == held@,
{
    Held { large: copy_optional(&held.large), max: copy_optional(&held.max) }
}

/// Whether two optional texts are both missing or read the same.
fn same(left: &Option<String>, right: &Option<String>) -> (r: bool)
    ensures
        r == (text_of(*left) == text_of(*right)),
{
    crate::track::same_optional(left, right)
}

impl Cover {
    /// Nothing playing, nothing kept.
    pub fn new() -> (r: Cover)
        ensures
            r@.album is None && r@.large is None && r@.max is None && r@.cache.len() == 0,
    {
        let r = Cover { album: None, large: None, max: None, cache: Vec::new() };
        assert(cache_view(r.cache@) =~= Seq::<(Seq<char>, HeldView)>::empty());
        r
    }

    /// The large cover of the album that plays.
    pub fn large(&self) -> (r: Option<&String>)
        ensures
            match r {
                Some(large) => self@.large == Some(large@),
                None => self@.large is None,
            },
    {
        match &self.large {
            Some(large) => Some(large),
            None => None,
        }
    }

    /// The largest cover of the album that plays, or its large one when there is no larger.
    pub fn max(&self) -> (r: Option<&String>)
        ensures
            match r {
                Some(max) => Some(max@) == if self@.max is Some {
                    self@.max
                } else {
                    self@.large
                },
                None => self@.max is None && self@.large is None,
            },
    {
        match &self.max {
            Some(max) => Some(max),
            None => match &self.large {
                Some(large) => Some(large),
                None => None,
            },
        }
    }

    /// The large cover, only when it belongs to `album`.
    pub fn large_for(&self, album: &String) -> (r: Option<&String>)
        ensures
            match r {
                Some(large) => self@.album == Some(album@) && self@.large == Some(large@),
                None => self@.album != Some(album@) || self@.large is None,
            },
    {
        match (&self.album, &self.large) {
            (Some(shown), Some(large)) => if same_text(shown, album) {
                Some(large)
            } else {
                None
            },
            _ => None,
        }
    }

    /// The artwork kept of `album`.
    fn kept(&self, album: &String) -> (r: Option<Held>)
        ensures
            match r {
                Some(held) => held_for(self@.cache, album@) == Some(held@),
                None => held_for(self@.cache, album@) is None,
            },
    {
        let ghost all = self@.cache;
        let mut i: usize = 0;
        assert(all.skip(0) =~= all);
        while i < self.cache.len()
            invariant
                i <= self.cache@.len(),
                all == self@.cache,
                all == cache_view(self.cache@),
                held_for(all, album@) == held_for(all.skip(i as int), album@),
            decreases self.cache@.len() - i,
        {
            assert(all.skip(i as int).drop_first() =~= all.skip(i + 1));
            assert(all.skip(i as int)[0] == (self.cache@[i as int].0@, self.cache@[i as int].1@));
            if same_text(&self.cache[i].0, album) {
                return Some(copy_held(&self.cache[i].1));
            }
            i = i + 1;
        }
        None
    }

    /// The album that plays is now `album`. Another album shows the artwork kept of it, or none;
    /// answers with the album to fetch the artwork of, when it has no large cover kept.
    pub fn follow(&mut self, album: Option<String>) -> (fetch: Option<String>)
        ensures
            text_of(album) == old(self)@.album ==> final(self)@ == old(self)@ && fetch is None,
            text_of(album) != old(self)@.album ==> {
                let held = match text_of(album) {
                    Some(id) => held_for(old(self)@.cache, id),
                    None => None,
                };
                &&& final(self)@ == (CoverView {
                    album: text_of(album),
                    large: match held {
                        Some(held) => held.large,
                        None => None,
                    },
                    max: match held {
                        Some(held) => held.max,
                        None => None,
                    },
                    ..old(self)@
                })
                &&& text_of(fetch) == if text_of(album) is Some && final(self)@.large is None {
                    text_of(album)
                } else {
                    None
                }
            },
    {
        if same(&album, &self.album) {
            return None;
        }
        let held = match &album {
            Some(id) => self.kept(id),
            None => None,
        };
        match held {
            Some(held) => {
                self.large = held.large;
                self.max = held.max;
            },
            None => {
                self.large = None;
                self.max = None;
            },
        }
        let fetch = match &album {
            Some(id) => if self.large.is_none() {
                Some(id.clone())
            } else {
                None
            },
            None => None,
        };
        self.album = album;
        fetch
    }

    /// The artwork of `album` came: none of it is kept when there is none; otherwise it is kept
    /// in place of any before, and shown when `album` still plays. Answers whether what is shown
    /// changed.
    pub fn loaded(&mut self, album: String, held: Held) -> (shown: bool)
        ensures
            held@.large is None && held@.max is None ==> final(self)@ == old(self)@ && !shown,
            !(held@.large is None && held@.max is None) ==> {
                &&& final(self)@.cache == without_album(old(self)@.cache, album@).push((album@, held@))
                &&& shown == (old(self)@.album == Some(album@))
                &&& final(self)@.album == old(self)@.album
                &&& final(self)@.large == if shown {
                    held@.large
                } else {
                    old(self)@.large
                }
                &&& final(self)@.max == if shown {
                    held@.max
                } else {
                    old(self)@.max
                }
            },
    {
        if held.large.is_none() && held.max.is_none() {
            return false;
        }
        let mut all: Vec<(String, Held)> = Vec::new();
        std::mem::swap(&mut all, &mut self.cache);
        let ghost before = cache_view(all@);
        let mut kept: Vec<(String, Held)> = Vec::new();
        assert(cache_view(kept@) =~= without_album(before.subrange(0, 0), album@));
        while all.len() > 0
            invariant
                cache_view(all@).len() <= before.len(),
                cache_view(kept@) == without_album(
                    before.subrange(0, before.len() - cache_view(all@).len()),
                    album@,
                ),
                cache_view(all@) == before.subrange(before.len() - cache_view(all@).len(), before.len() as int),
            decreases all@.len(),
        {
            let ghost gone = before.len() - cache_view(all@).len();
            let ghost was = all@;
            let entry = all.remove(0);
            proof {
                assert(before.subrange(0, gone + 1).drop_last() =~= before.subrange(0, gone));
                assert(cache_view(was)[0] == before.subrange(gone, before.len() as int)[0]);
                assert(before[gone] == (entry.0@, entry.1@));
                assert(cache_view(all@) =~= cache_view(was).drop_first());
                assert(cache_view(all@) =~= before.subrange(gone + 1, before.len() as int));
            }
            if !same_text(&entry.0, &album) {
                let ghost had = kept@;
                kept.push(entry);
                assert(cache_view(kept@) =~= cache_view(had).push(before[gone]));
            }
            assert(cache_view(kept@) =~= without_album(before.subrange(0, gone + 1), album@));
        }
        assert(before.subrange(0, before.len() as int) =~= before);
        let shown = match &self.album {
            Some(playing) => same_text(playing, &album),
            None => false,
        };
        if shown {
            self.large = copy_optional(&held.large);
            self.max = copy_optional(&held.max);
        }
        let ghost had = kept@;
        kept.push((album, held));
        assert(cache_view(kept@) =~= cache_view(had).push((kept@.last().0@, kept@.last().1@)));
        self.cache = kept;
        shown
    }

    /// A provider signed out: the artwork kept of its albums, `gone`, is dropped, and what
    /// shows too when the album that plays is one of its, `playing_gone`.
    pub fn forget(&mut self, gone: &Vec<String>, playing_gone: bool)
        ensures
            final(self)@.cache == without_any(old(self)@.cache, crate::feed::texts_view(gone@)),
            playing_gone ==> final(self)@.album is None && final(self)@.large is None
                && final(self)@.max is None,
            !playing_gone ==> final(self)@.album == old(self)@.album && final(self)@.large == old(
                self,
            )@.large && final(self)@.max == old(self)@.max,
    {
        let ghost wanted = crate::feed::texts_view(gone@);
        let mut all: Vec<(String, Held)> = Vec::new();
        std::mem::swap(&mut all, &mut self.cache);
        let ghost before = cache_view(all@);
        let mut kept: Vec<(String, Held)> = Vec::new();
        assert(cache_view(kept@) =~= without_any(before.subrange(0, 0), wanted));
        while all.len() > 0
            invariant
                cache_view(all@).len() <= before.len(),
                wanted == crate::feed::texts_view(gone@),
                cache_view(kept@) == without_any(
                    before.subrange(0, before.len() - cache_view(all@).len()),
                    wanted,
                ),
                cache_view(all@) == before.subrange(before.len() - cache_view(all@).len(), before.len() as int),
            decreases all@.len(),
        {
            let ghost at = before.len() - cache_view(all@).len();
            let ghost was = all@;
            let entry = all.remove(0);
            proof {
                assert(before.subrange(0, at + 1).drop_last() =~= before.subrange(0, at));
                assert(cache_view(was)[0] == before.subrange(at, before.len() as int)[0]);
                assert(before[at] == (entry.0@, entry.1@));
                assert(cache_view(all@) =~= cache_view(was).drop_first());
                assert(cache_view(all@) =~= before.subrange(at + 1, before.len() as int));
            }
            if !crate::library::among(gone, &entry.0) {
                let ghost had = kept@;
                kept.push(entry);
                assert(cache_view(kept@) =~= cache_view(had).push(before[at]));
            }
            assert(cache_view(kept@) =~= without_any(before.subrange(0, at + 1), wanted));
        }
        assert(before.subrange(0, before.len() as int) =~= before);
        self.cache = kept;
        if playing_gone {
            self.album = None;
            self.large = None;
            self.max = None;
        }
    }
}

/// Going back to an album whose artwork came shows that artwork at once, with nothing to
/// fetch: the artwork kept of an album is the last that came for it.
pub proof fn lemma_kept_artwork_returns(cache: Seq<(Seq<char>, HeldView)>, album: Seq<char>, held: HeldView)
    ensures
        held_for(without_album(cache, album).push((album, held)), album) == Some(held),
{
    lemma_held_absent(without_album(cache, album), album);
    lemma_without_album_absent(cache, album);
}

/// A cache without entries of `album` has none, and pushing one for it finds that one.
proof fn lemma_held_absent(cache: Seq<(Seq<char>, HeldView)>, album: Seq<char>)
    ensures
        (forall|i: int| 0 <= i < cache.len() ==> #[trigger] cache[i].0 != album) ==> forall|held: HeldView|
            held_for(#[trigger] cache.push((album, held)), album) == Some(held),
    decreases cache.len(),
{
    if cache.len() > 0 {
        lemma_held_absent(cache.drop_first(), album);
        if forall|i: int| 0 <= i < cache.len() ==> #[trigger] cache[i].0 != album {
            assert forall|i: int| 0 <= i < cache.drop_first().len() implies #[trigger] cache.drop_first()[i].0
                != album by {
                assert(cache.drop_first()[i] == cache[i + 1]);
            }
            assert forall|held: HeldView| held_for(#[trigger] cache.push((album, held)), album) == Some(
                held,
            ) by {
                assert(cache.push((album, held)).drop_first() =~= cache.drop_first().push((album, held)));
                assert(cache.push((album, held))[0] == cache[0]);
            }
        }
    } else {
        assert forall|held: HeldView| held_for(#[trigger] cache.push((album, held)), album) == Some(held) by {
            assert(cache.push((album, held))[0] == (album, held));
        }
    }
}

/// Dropping the entries of `album` leaves none of it.
proof fn lemma_without_album_absent(cache: Seq<(Seq<char>, HeldView)>, album: Seq<char>)
    ensures
        forall|i: int|
            0 <= i < without_album(cache, album).len() ==> #[trigger] without_album(cache, album)[i].0
                != album,
    decreases cache.len(),
{
    if cache.len() > 0 {
        lemma_without_album_absent(cache.drop_last(), album);
        let before = without_album(cache.drop_last(), album);
        if cache.last().0 != album {
            assert forall|i: int| 0 <= i < before.push(cache.last()).len() implies #[trigger] before.push(
                cache.last(),
            )[i].0 != album by {
                if i < before.len() {
                    assert(before.push(cache.last())[i] == before[i]);
                }
            }
        }
    }
}

} // verus!
