//! A track as the queue and the jam see it: what names it, what shows it, and whether it plays.

use vstd::prelude::*;

use crate::alike::Alike;

verus! {

/// An artist a track credits: the name, and the provider's id where it has one.
#[derive(Clone, Debug, PartialEq, Eq)]
pub struct ArtistRef {
    pub name: String,
    pub id: Option<String>,
}

/// A credited artist as a plain value.
pub struct ArtistView {
    pub name: Seq<char>,
    pub id: Option<Seq<char>>,
}

impl View for ArtistRef {
    type V = ArtistView;

    open spec fn view(&self) -> ArtistView {
        ArtistView { name: self.name@, id: text_of(self.id) }
    }
}

/// One track. `id` is the provider's id, missing for a track that cannot be asked for again;
/// `album_id` is its album's, where the provider gives one.
#[derive(Clone, Debug, PartialEq, Eq)]
pub struct Track {
    pub id: Option<String>,
    pub name: String,
    pub artists: String,
    pub album: String,
    pub album_id: Option<String>,
    pub cover: Option<String>,
    pub duration_ms: u64,
    pub explicit: bool,
    pub playable: bool,
}

/// A track as a plain value.
pub struct TrackView {
    pub id: Option<Seq<char>>,
    pub name: Seq<char>,
    pub artists: Seq<char>,
    pub album: Seq<char>,
    pub album_id: Option<Seq<char>>,
    pub cover: Option<Seq<char>>,
    pub duration_ms: u64,
    pub explicit: bool,
    pub playable: bool,
}

/// An optional text as a plain value.
pub open spec fn text_of(text: Option<String>) -> Option<Seq<char>> {
    match text {
        Some(text) => Some(text@),
        None => None,
    }
}

impl View for Track {
    type V = TrackView;

    open spec fn view(&self) -> TrackView {
        TrackView {
            id: text_of(self.id),
            name: self.name@,
            artists: self.artists@,
            album: self.album@,
            album_id: text_of(self.album_id),
            cover: text_of(self.cover),
            duration_ms: self.duration_ms,
            explicit: self.explicit,
            playable: self.playable,
        }
    }
}

/// The ids of some tracks, as plain values.
pub open spec fn ids_of(tracks: Seq<Track>) -> Seq<Option<Seq<char>>> {
    tracks.map_values(|track: Track| track@.id)
}

/// Whether two texts read the same.
pub fn same_text(left: &String, right: &String) -> (r: bool)
    ensures
        r == (left@ == right@),
{
    *left == *right
}

/// Whether a text reads as `literal`.
pub fn reads(text: &String, literal: &str) -> (r: bool)
    ensures
        r == (text@ == literal@),
{
    let literal = literal.to_owned();
    *text == literal
}

/// Whether two optional texts are both missing or read the same.
pub fn same_optional(left: &Option<String>, right: &Option<String>) -> (r: bool)
    ensures
        r == (text_of(*left) == text_of(*right)),
{
    match (left, right) {
        (Some(left), Some(right)) => same_text(left, right),
        (None, None) => true,
        _ => false,
    }
}

/// A copy of an optional text.
pub fn copy_optional(text: &Option<String>) -> (r: Option<String>)
    ensures
        r == *text,
{
    match text {
        Some(text) => Some(text.clone()),
        None => None,
    }
}

impl Track {
    /// A copy of the track, field for field.
    pub fn copy(&self) -> (r: Track)
        ensures
            r == *self,
    {
        Track {
            id: copy_optional(&self.id),
            name: self.name.clone(),
            artists: self.artists.clone(),
            album: self.album.clone(),
            album_id: copy_optional(&self.album_id),
            cover: copy_optional(&self.cover),
            duration_ms: self.duration_ms,
            explicit: self.explicit,
            playable: self.playable,
        }
    }

    /// Whether two tracks are the same in every field.
    pub fn same(&self, other: &Track) -> (r: bool)
        ensures
            r == (self@ == other@),
    {
        same_optional(&self.id, &other.id) && same_text(&self.name, &other.name) && same_text(
            &self.artists,
            &other.artists,
        ) && same_text(&self.album, &other.album) && same_optional(&self.album_id, &other.album_id)
            && same_optional(&self.cover, &other.cover) && self.duration_ms == other.duration_ms
            && self.explicit == other.explicit && self.playable == other.playable
    }
}


impl Alike for Track {
    fn alike(&self, other: &Self) -> (r: bool) {
        self.same(other)
    }

    fn duplicate(&self) -> (r: Self) {
        self.copy()
    }
}

} // verus!
